//! IPv4 addresses as 32-bit values, and their dotted-decimal text.

use vstd::prelude::*;
use vstd::string::*;
use vstd::arithmetic::div_mod::{lemma_fundamental_div_mod, lemma_fundamental_div_mod_converse};

verus! {

/// Whether `c` is one of the ten decimal digits.
pub open spec fn is_digit(c: char) -> bool {
    '0' <= c && c <= '9'
}

/// The value of a decimal digit.
pub open spec fn digit_value(c: char) -> int {
    c as int - 48
}

/// The octet that one field of a dotted-decimal text denotes: one to three
/// decimal digits, no leading zero unless the field is "0", at most 255.
pub open spec fn octet_of(t: Seq<char>) -> Option<u8> {
    if t.len() == 1 && is_digit(t[0]) {
        Some(digit_value(t[0]) as u8)
    } else if t.len() == 2 && is_digit(t[0]) && is_digit(t[1]) && t[0] != '0' {
        Some((10 * digit_value(t[0]) + digit_value(t[1])) as u8)
    } else if t.len() == 3 && is_digit(t[0]) && is_digit(t[1]) && is_digit(t[2]) && t[0] != '0'
        && 100 * digit_value(t[0]) + 10 * digit_value(t[1]) + digit_value(t[2]) <= 255 {
        Some((100 * digit_value(t[0]) + 10 * digit_value(t[1]) + digit_value(t[2])) as u8)
    } else {
        None
    }
}

/// The fields of `s`: the pieces between its dots, in order. A text without a
/// dot is one field; a text of n dots has n + 1 fields, some possibly empty.
pub open spec fn fields(s: Seq<char>) -> Seq<Seq<char>>
    decreases s.len(),
{
    if s.len() == 0 {
        seq![Seq::<char>::empty()]
    } else {
        let before = fields(s.drop_last());
        if s.last() == '.' {
            before.push(Seq::<char>::empty())
        } else {
            before.drop_last().push(before.last().push(s.last()))
        }
    }
}

/// The address whose octets are `a`, `b`, `c`, `d`, most significant first.
pub open spec fn pack(a: u8, b: u8, c: u8, d: u8) -> u32 {
    (a * 16777216 + b * 65536 + c * 256 + d) as u32
}

/// The address that a dotted-decimal text denotes: exactly four fields, each
/// an octet. Any other text denotes none.
pub open spec fn address_of(s: Seq<char>) -> Option<u32> {
    let f = fields(s);
    if f.len() == 4 && octet_of(f[0]) is Some && octet_of(f[1]) is Some && octet_of(f[2]) is Some
        && octet_of(f[3]) is Some {
        Some(pack(octet_of(f[0])->0, octet_of(f[1])->0, octet_of(f[2])->0, octet_of(f[3])->0))
    } else {
        None
    }
}

/// Every text has at least one field.
pub proof fn lemma_fields_nonempty(s: Seq<char>)
    ensures
        fields(s).len() >= 1,
    decreases s.len(),
{
    if s.len() > 0 {
        lemma_fields_nonempty(s.drop_last());
    }
}

/// Reads a dotted-decimal address. The whole text must be the address: four
/// octets in decimal, separated by single dots, none with a leading zero.
pub fn parse_address(s: &str) -> (r: Option<u32>)
    ensures
        r == address_of(s@),
{
    let n = s.unicode_len();
    let mut i: usize = 0;
    let mut ok: bool = true;
    let mut closed: usize = 0;
    let mut a0: u32 = 0;
    let mut a1: u32 = 0;
    let mut a2: u32 = 0;
    let mut cur_ok: bool = true;
    let mut cur_len: usize = 0;
    let mut cur_val: u32 = 0;
    let ghost mut done: Seq<Seq<char>> = Seq::empty();
    let ghost mut cur: Seq<char> = Seq::empty();
    proof {
        assert(fields(s@.take(0)) =~= done.push(cur));
    }
    while i < n
        invariant
            i <= n,
            n == s@.len(),
            fields(s@.take(i as int)) == done.push(cur),
            ok == (done.len() <= 3 && forall|j: int|
                0 <= j < done.len() ==> (#[trigger] octet_of(done[j])) is Some),
            ok ==> closed == done.len(),
            ok && done.len() > 0 ==> a0 == octet_of(done[0])->0,
            ok && done.len() > 1 ==> a1 == octet_of(done[1])->0,
            ok && done.len() > 2 ==> a2 == octet_of(done[2])->0,
            cur_ok == (cur.len() == 0 || octet_of(cur) is Some),
            cur_ok ==> cur_len == cur.len(),
            cur_ok && cur.len() > 0 ==> cur_val == octet_of(cur)->0,
            cur.len() == 0 ==> cur_val == 0,
            cur_val <= 255,
        decreases n - i,
    {
        let c = s.get_char(i);
        proof {
            let t = s@.take(i as int + 1);
            assert(t.drop_last() =~= s@.take(i as int));
            assert(done.push(cur).drop_last() =~= done);
        }
        if c == '.' {
            if ok && cur_ok && cur_len > 0 && closed < 3 {
                if closed == 0 {
                    a0 = cur_val;
                } else if closed == 1 {
                    a1 = cur_val;
                } else {
                    a2 = cur_val;
                }
                closed = closed + 1;
            } else {
                ok = false;
            }
            proof {
                done = done.push(cur);
                cur = Seq::empty();
            }
            cur_ok = true;
            cur_len = 0;
            cur_val = 0;
        } else {
            if cur_ok && '0' <= c && c <= '9' && cur_len < 3 && !(cur_len >= 1 && cur_val == 0) {
                let d: u32 = (c as u32) - 48;
                let v: u32 = cur_val * 10 + d;
                if v <= 255 {
                    cur_val = v;
                    cur_len = cur_len + 1;
                } else {
                    cur_ok = false;
                }
            } else {
                cur_ok = false;
            }
            proof {
                cur = cur.push(c);
            }
        }
        i = i + 1;
    }
    proof {
        assert(s@.take(n as int) =~= s@);
    }
    if ok && closed == 3 && cur_ok && cur_len > 0 {
        Some(a0 * 16777216 + a1 * 65536 + a2 * 256 + cur_val)
    } else {
        None
    }
}

/// The character of a decimal digit.
pub open spec fn digit_char(d: u8) -> char {
    (d + 48) as char
}

/// The decimal text of an octet, without leading zeros.
pub open spec fn octet_text(v: u8) -> Seq<char> {
    if v < 10 {
        seq![digit_char(v)]
    } else if v < 100 {
        seq![digit_char(v / 10), digit_char(v % 10)]
    } else {
        seq![digit_char(v / 100), digit_char((v / 10) % 10), digit_char(v % 10)]
    }
}

/// The octet of `a` at `index`, counted from the most significant, which is 0.
pub open spec fn octet(a: u32, index: int) -> u8 {
    if index == 0 {
        (a / 16777216) as u8
    } else if index == 1 {
        ((a / 65536) % 256) as u8
    } else if index == 2 {
        ((a / 256) % 256) as u8
    } else {
        (a % 256) as u8
    }
}

/// The dotted-decimal text of an address.
pub open spec fn dotted(a: u32) -> Seq<char> {
    octet_text(octet(a, 0)) + seq!['.'] + octet_text(octet(a, 1)) + seq!['.'] + octet_text(
        octet(a, 2),
    ) + seq!['.'] + octet_text(octet(a, 3))
}

/// Whether a text holds no dot.
pub open spec fn dotless(t: Seq<char>) -> bool {
    forall|i: int| 0 <= i < t.len() ==> t[i] != '.'
}

/// Text without a dot, put behind a text, lengthens its last field.
pub proof fn lemma_fields_extend(s: Seq<char>, t: Seq<char>)
    requires
        dotless(t),
    ensures
        fields(s).len() >= 1,
        fields(s + t) == fields(s).drop_last().push(fields(s).last() + t),
    decreases t.len(),
{
    lemma_fields_nonempty(s);
    if t.len() == 0 {
        assert(s + t =~= s);
        assert(fields(s).last() + t =~= fields(s).last());
        assert(fields(s).drop_last().push(fields(s).last()) =~= fields(s));
    } else {
        let shorter = t.drop_last();
        assert(dotless(shorter)) by {
            assert forall|i: int| 0 <= i < shorter.len() implies shorter[i] != '.' by {
                assert(shorter[i] == t[i]);
            }
        }
        lemma_fields_extend(s, shorter);
        assert((s + t).drop_last() =~= s + shorter);
        assert((s + t).last() == t.last());
        assert(t.last() != '.');
        let before = fields(s + shorter);
        assert(before.drop_last() =~= fields(s).drop_last());
        assert(before.last().push(t.last()) =~= fields(s).last() + t);
    }
}

/// A dot put behind a text opens a new, empty field.
pub proof fn lemma_fields_dot(s: Seq<char>)
    ensures
        fields(s + seq!['.']) == fields(s).push(Seq::<char>::empty()),
{
    let t = s + seq!['.'];
    assert(t.drop_last() =~= s);
    assert(t.last() == '.');
}

/// The text of an octet has no dot and denotes that octet.
pub proof fn lemma_octet_text(v: u8)
    ensures
        dotless(octet_text(v)),
        octet_of(octet_text(v)) == Some(v),
{
    let t = octet_text(v);
    if v < 10 {
        assert(t[0] == digit_char(v));
    } else if v < 100 {
        assert(t[0] == digit_char(v / 10) && t[1] == digit_char(v % 10));
    } else {
        assert(t[0] == digit_char(v / 100) && t[1] == digit_char((v / 10) % 10) && t[2]
            == digit_char(v % 10));
    }
}

/// A text without a dot is its own single field.
pub proof fn lemma_fields_of_dotless(t: Seq<char>)
    requires
        dotless(t),
    ensures
        fields(t) == seq![t],
{
    let none = Seq::<char>::empty();
    assert(fields(none) =~= seq![none]);
    lemma_fields_extend(none, t);
    assert(none + t =~= t);
    assert(fields(none).drop_last().push(fields(none).last() + t) =~= seq![t]);
}

/// A dot and a text without a dot, put behind a text, add that text as one
/// more field.
pub proof fn lemma_fields_push(s: Seq<char>, t: Seq<char>)
    requires
        dotless(t),
    ensures
        fields(s + seq!['.'] + t) == fields(s).push(t),
{
    let none = Seq::<char>::empty();
    let opened = fields(s).push(none);
    lemma_fields_dot(s);
    lemma_fields_extend(s + seq!['.'], t);
    assert(opened.drop_last() =~= fields(s));
    assert(opened.last() + t =~= t);
}

/// An address is its four octets packed.
pub proof fn lemma_pack_of_octets(a: u32)
    ensures
        pack(octet(a, 0), octet(a, 1), octet(a, 2), octet(a, 3)) == a,
{
    let n = a as int;
    lemma_fundamental_div_mod(n, 256);
    lemma_fundamental_div_mod(n / 256, 256);
    lemma_fundamental_div_mod(n / 256 / 256, 256);
    assert(n / 256 / 256 == n / 65536);
    assert(n / 256 / 256 / 256 == n / 16777216);
}

/// Reading the text of an address gives the address back.
pub proof fn lemma_address_of_dotted(a: u32)
    ensures
        address_of(dotted(a)) == Some(a),
{
    let t0 = octet_text(octet(a, 0));
    let t1 = octet_text(octet(a, 1));
    let t2 = octet_text(octet(a, 2));
    let t3 = octet_text(octet(a, 3));
    lemma_octet_text(octet(a, 0));
    lemma_octet_text(octet(a, 1));
    lemma_octet_text(octet(a, 2));
    lemma_octet_text(octet(a, 3));
    lemma_fields_of_dotless(t0);
    lemma_fields_push(t0, t1);
    lemma_fields_push(t0 + seq!['.'] + t1, t2);
    lemma_fields_push(t0 + seq!['.'] + t1 + seq!['.'] + t2, t3);
    assert(fields(dotted(a)) =~= seq![t0, t1, t2, t3]);
    lemma_pack_of_octets(a);
}

/// The fields put together again, with a dot between each two.
pub open spec fn joined(f: Seq<Seq<char>>) -> Seq<char>
    decreases f.len(),
{
    if f.len() == 0 {
        Seq::<char>::empty()
    } else if f.len() == 1 {
        f[0]
    } else {
        joined(f.drop_last()) + seq!['.'] + f.last()
    }
}

/// A text is its fields with dots between them.
pub proof fn lemma_joined_fields(s: Seq<char>)
    ensures
        joined(fields(s)) == s,
    decreases s.len(),
{
    if s.len() == 0 {
        assert(fields(s)[0] =~= s);
    } else {
        let shorter = s.drop_last();
        let before = fields(shorter);
        lemma_joined_fields(shorter);
        lemma_fields_nonempty(shorter);
        assert(s =~= shorter.push(s.last()));
        if s.last() == '.' {
            let f = before.push(Seq::<char>::empty());
            assert(f.drop_last() =~= before);
            assert(joined(f) =~= shorter + seq!['.'] + Seq::<char>::empty());
            assert(joined(f) =~= s);
        } else {
            let f = before.drop_last().push(before.last().push(s.last()));
            if before.len() == 1 {
                assert(joined(f) =~= before[0].push(s.last()));
            } else {
                assert(f.drop_last() =~= before.drop_last());
                assert(joined(f) =~= (joined(before.drop_last()) + seq!['.'] + before.last()).push(
                    s.last(),
                ));
            }
            assert(joined(f) =~= s);
        }
    }
}

/// A field that denotes an octet is the text of that octet.
pub proof fn lemma_octet_of_is_text(t: Seq<char>)
    requires
        octet_of(t) is Some,
    ensures
        t == octet_text(octet_of(t)->0),
{
    assert(t =~= octet_text(octet_of(t)->0));
}

/// Packing four octets and taking the address apart again gives the octets.
pub proof fn lemma_octets_of_pack(a: u8, b: u8, c: u8, d: u8)
    ensures
        octet(pack(a, b, c, d), 0) == a,
        octet(pack(a, b, c, d), 1) == b,
        octet(pack(a, b, c, d), 2) == c,
        octet(pack(a, b, c, d), 3) == d,
{
    let n = a * 16777216 + b * 65536 + c * 256 + d;
    assert(pack(a, b, c, d) == n);
    lemma_fundamental_div_mod_converse(n, 16777216, a as int, b * 65536 + c * 256 + d);
    lemma_fundamental_div_mod_converse(n, 65536, a * 256 + b, c * 256 + d);
    lemma_fundamental_div_mod_converse(a * 256 + b, 256, a as int, b as int);
    lemma_fundamental_div_mod_converse(n, 256, a * 65536 + b * 256 + c, d as int);
    lemma_fundamental_div_mod_converse(a * 65536 + b * 256 + c, 256, a * 256 + b, c as int);
}

/// Four fields put together.
pub proof fn lemma_joined_four(f: Seq<Seq<char>>)
    requires
        f.len() == 4,
    ensures
        joined(f) == f[0] + seq!['.'] + f[1] + seq!['.'] + f[2] + seq!['.'] + f[3],
{
    let f3 = f.drop_last();
    let f2 = f3.drop_last();
    let f1 = f2.drop_last();
    assert(joined(f1) == f[0]);
    assert(joined(f2) == f[0] + seq!['.'] + f[1]);
    assert(joined(f3) == f[0] + seq!['.'] + f[1] + seq!['.'] + f[2]);
}

/// A text that denotes an address is the dotted-decimal text of that address.
pub proof fn lemma_dotted_of_address(s: Seq<char>)
    requires
        address_of(s) is Some,
    ensures
        s == dotted(address_of(s)->0),
{
    let f = fields(s);
    let a = address_of(s)->0;
    lemma_joined_fields(s);
    lemma_joined_four(f);
    lemma_octet_of_is_text(f[0]);
    lemma_octet_of_is_text(f[1]);
    lemma_octet_of_is_text(f[2]);
    lemma_octet_of_is_text(f[3]);
    lemma_octets_of_pack(octet_of(f[0])->0, octet_of(f[1])->0, octet_of(f[2])->0, octet_of(f[3])->0);
}

/// Only the text of an address denotes it: reading a text gives an address
/// exactly where the text is the dotted-decimal text of that address.
pub proof fn lemma_address_text_unique(s: Seq<char>, a: u32)
    ensures
        address_of(s) == Some(a) <==> s == dotted(a),
{
    if s == dotted(a) {
        lemma_address_of_dotted(a);
    }
    if address_of(s) == Some(a) {
        lemma_dotted_of_address(s);
    }
}

fn digit_str(d: u8) -> (r: &'static str)
    requires
        d < 10,
    ensures
        r@ == seq![digit_char(d)],
{
    proof {
        reveal_strlit("0");
        reveal_strlit("1");
        reveal_strlit("2");
        reveal_strlit("3");
        reveal_strlit("4");
        reveal_strlit("5");
        reveal_strlit("6");
        reveal_strlit("7");
        reveal_strlit("8");
        reveal_strlit("9");
    }
    let r = if d == 0 {
        "0"
    } else if d == 1 {
        "1"
    } else if d == 2 {
        "2"
    } else if d == 3 {
        "3"
    } else if d == 4 {
        "4"
    } else if d == 5 {
        "5"
    } else if d == 6 {
        "6"
    } else if d == 7 {
        "7"
    } else if d == 8 {
        "8"
    } else {
        "9"
    };
    assert(r@ =~= seq![digit_char(d)]);
    r
}

fn push_octet(out: &mut String, v: u8)
    ensures
        final(out)@ == old(out)@ + octet_text(v),
{
    if v >= 100 {
        out.append(digit_str(v / 100));
    }
    if v >= 10 {
        out.append(digit_str((v / 10) % 10));
    }
    out.append(digit_str(v % 10));
    assert(out@ =~= old(out)@ + octet_text(v));
}

/// Writes an address as dotted-decimal text, which reads back as the address.
pub fn format_address(a: u32) -> (r: String)
    ensures
        r@ == dotted(a),
        address_of(r@) == Some(a),
{
    proof {
        reveal_strlit(".");
        lemma_address_of_dotted(a);
    }
    let mut out = String::new();
    push_octet(&mut out, (a / 16777216) as u8);
    out.append(".");
    push_octet(&mut out, ((a / 65536) % 256) as u8);
    out.append(".");
    push_octet(&mut out, ((a / 256) % 256) as u8);
    out.append(".");
    push_octet(&mut out, (a % 256) as u8);
    assert(out@ =~= dotted(a));
    out
}

} // verus!
