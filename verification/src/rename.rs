//! Deciding what to rename and how long to keep titles pinned.
use vstd::prelude::*;

use crate::text::{
    chars_of, decimal, digit_value, digits_value, parse_u32, parse_u32_chars, push_decimal,
    starts_with,
};

verus! {

/// `s` with every leading copy of `prefix` removed (`str::trim_start_matches`).
pub open spec fn strip_leading(s: Seq<char>, prefix: Seq<char>) -> Seq<char>
    decreases s.len(),
{
    if prefix.len() > 0 && starts_with(s, prefix) {
        strip_leading(s.skip(prefix.len() as int), prefix)
    } else {
        s
    }
}

/// The window id that `list` shows (e.g. `0x04ef2087`): hexadecimal, with
/// any leading `0x`, then any leading `0X`, removed.
pub open spec fn window_id_value(id: Seq<char>) -> Option<u32> {
    parse_u32(strip_leading(strip_leading(id, seq!['0', 'x']), seq!['0', 'X']), 16)
}

/// Position past the leading copies of `0` followed by `x_char`, from `from` on.
fn skip_hex_prefix(cs: &Vec<char>, from: usize, x_char: char) -> (r: usize)
    requires
        from <= cs@.len(),
    ensures
        from <= r <= cs@.len(),
        cs@.skip(r as int) == strip_leading(cs@.skip(from as int), seq!['0', x_char]),
{
    let ghost p = seq!['0', x_char];
    let n = cs.len();
    let mut a = from;
    while a < n && a + 1 < n && cs[a] == '0' && cs[a + 1] == x_char
        invariant
            n == cs@.len(),
            from <= a <= cs@.len(),
            p == seq!['0', x_char],
            strip_leading(cs@.skip(from as int), p) == strip_leading(cs@.skip(a as int), p),
        decreases cs@.len() - a,
    {
        proof {
            let t = cs@.skip(a as int);
            assert(t.take(2) =~= p);
            assert(t.skip(2) =~= cs@.skip(a + 2));
        }
        a = a + 2;
    }
    proof {
        let t = cs@.skip(a as int);
        if starts_with(t, p) {
            assert(t.take(2)[0] == cs@[a as int]);
            assert(t.take(2)[1] == cs@[a + 1]);
        }
    }
    a
}

/// Parse a window id given on the command line (e.g. `0x04ef2087`).
pub fn parse_window_id(id: &str) -> (r: Option<u32>)
    ensures
        r == window_id_value(id@),
{
    let cs = chars_of(id);
    proof {
        assert(cs@.skip(0) =~= cs@);
    }
    let a = skip_hex_prefix(&cs, 0, 'x');
    let b = skip_hex_prefix(&cs, a, 'X');
    proof {
        assert(cs@.subrange(b as int, cs@.len() as int) =~= cs@.skip(b as int));
    }
    parse_u32_chars(&cs, b, cs.len(), 16)
}

/// The lowercase hexadecimal digit of `d` (`0 <= d < 16`).
pub open spec fn hex_char(d: nat) -> char {
    if d < 10 {
        (48 + d) as char
    } else {
        (87 + d) as char
    }
}

/// The `k` lowest hexadecimal digits of `n`, most significant first.
pub open spec fn hex_digits(n: nat, k: nat) -> Seq<char>
    decreases k,
{
    if k == 0 {
        Seq::empty()
    } else {
        hex_digits(n / 16, (k - 1) as nat).push(hex_char(n % 16))
    }
}

/// How `list` shows a window id (`{:#010x}`): `0x` and eight lowercase
/// hexadecimal digits.
pub open spec fn hex_id_text(id: u32) -> Seq<char> {
    seq!['0', 'x'] + hex_digits(id as nat, 8)
}

/// Sixteen to the power `k`.
pub open spec fn pow16(k: nat) -> nat
    decreases k,
{
    if k == 0 {
        1
    } else {
        16 * pow16((k - 1) as nat)
    }
}

fn hex_str(d: u32) -> (s: &'static str)
    requires
        d < 16,
    ensures
        s@ == seq![hex_char(d as nat)],
{
    proof {
        reveal_strlit("0");
        reveal_strlit("1");
        reveal_strlit("2");
        reveal_strlit("3");
        reveal_strlit("4");
        reveal_strlit("5");
        reveal_strlit("6");
        reveal_strlit("7");
        reveal_strlit("8");
        reveal_strlit("9");
        reveal_strlit("a");
        reveal_strlit("b");
        reveal_strlit("c");
        reveal_strlit("d");
        reveal_strlit("e");
        reveal_strlit("f");
    }
    if d == 0 {
        "0"
    } else if d == 1 {
        "1"
    } else if d == 2 {
        "2"
    } else if d == 3 {
        "3"
    } else if d == 4 {
        "4"
    } else if d == 5 {
        "5"
    } else if d == 6 {
        "6"
    } else if d == 7 {
        "7"
    } else if d == 8 {
        "8"
    } else if d == 9 {
        "9"
    } else if d == 10 {
        "a"
    } else if d == 11 {
        "b"
    } else if d == 12 {
        "c"
    } else if d == 13 {
        "d"
    } else if d == 14 {
        "e"
    } else {
        "f"
    }
}

fn push_hex(out: &mut String, n: u32, k: u32)
    ensures
        final(out)@ == old(out)@ + hex_digits(n as nat, k as nat),
    decreases k,
{
    if k > 0 {
        push_hex(out, n / 16, k - 1);
        out.append(hex_str(n % 16));
    }
}

/// A window id as `list` shows it, e.g. `0x04ef2087`.
pub fn hex_id(id: u32) -> (s: String)
    ensures
        s@ == hex_id_text(id),
{
    proof {
        reveal_strlit("0x");
    }
    let mut s = String::from_str("0x");
    push_hex(&mut s, id, 8);
    s
}

proof fn lemma_hex_digits(n: nat, k: nat)
    requires
        n < pow16(k),
    ensures
        hex_digits(n, k).len() == k,
        digits_value(hex_digits(n, k), 16) == Some(n),
        forall|i: int|
            0 <= i < k ==> {
                let u = #[trigger] hex_digits(n, k)[i] as u32;
                (48 <= u <= 57 || 97 <= u <= 102)
            },
    decreases k,
{
    if k > 0 {
        let d = n % 16;
        assert(n / 16 < pow16((k - 1) as nat)) by (nonlinear_arith)
            requires
                n < 16 * pow16((k - 1) as nat),
        ;
        lemma_hex_digits(n / 16, (k - 1) as nat);
        let h = hex_digits(n, k);
        assert(h.drop_last() =~= hex_digits(n / 16, (k - 1) as nat));
        assert(h.last() == hex_char(d));
        assert(digit_value(hex_char(d)) == d);
        assert(n / 16 * 16 + d == n);
        assert forall|i: int| 0 <= i < k implies {
            let u = #[trigger] h[i] as u32;
            (48 <= u <= 57 || 97 <= u <= 102)
        } by {
            if i < k - 1 {
                assert(h[i] == hex_digits(n / 16, (k - 1) as nat)[i]);
            }
        }
    } else {
        assert(hex_digits(n, k) =~= Seq::<char>::empty());
    }
}

/// Window ids round-trip: the id that `list` shows is read back by
/// `rename --id` as the same window.
pub proof fn lemma_window_id_round_trip(id: u32)
    ensures
        window_id_value(hex_id_text(id)) == Some(id),
{
    assert(pow16(8) == 0x1_0000_0000) by {
        reveal_with_fuel(pow16, 9);
    }
    lemma_hex_digits(id as nat, 8);
    let h = hex_digits(id as nat, 8);
    let t = hex_id_text(id);
    let lx = seq!['0', 'x'];
    let ux = seq!['0', 'X'];
    assert(t.take(2) =~= lx);
    assert(t.skip(2) =~= h);
    assert(strip_leading(t, lx) == strip_leading(h, lx));
    assert(h[1] as u32 != 120 && h[1] as u32 != 88);
    if starts_with(h, lx) {
        assert(h.take(2)[1] == h[1]);
    }
    if starts_with(h, ux) {
        assert(h.take(2)[1] == h[1]);
    }
    assert(strip_leading(h, lx) == h);
    assert(strip_leading(h, ux) == h);
    assert(h[0] as u32 != 43);
}

/// The complaint when the number of titles does not match the number of
/// windows, by click (`by_id` false) or by window id.
pub open spec fn title_count_message(expected: usize, got: usize, by_id: bool) -> Seq<char> {
    "Expected "@ + decimal(expected as nat) + " title(s) for "@ + decimal(expected as nat) + (if by_id {
        " window ID(s), got "@
    } else {
        " window(s), got "@
    }) + decimal(got as nat)
}

/// One title is needed per window: the complaint when `got` titles were
/// given for `expected` windows, or nothing when they match.
pub fn title_count_error(expected: usize, got: usize, by_id: bool) -> (r: Option<String>)
    ensures
        expected == got ==> r is None,
        expected != got ==> (r matches Some(m) && m@ == title_count_message(expected, got, by_id)),
{
    if expected == got {
        return None;
    }
    let mut s = String::from_str("Expected ");
    push_decimal(&mut s, expected as u64);
    s.append(" title(s) for ");
    push_decimal(&mut s, expected as u64);
    s.append(if by_id { " window ID(s), got " } else { " window(s), got " });
    push_decimal(&mut s, got as u64);
    Some(s)
}

/// Pinning goes on while any pinned window still exists.
pub fn any_alive(alive: &Vec<bool>) -> (r: bool)
    ensures
        r == alive@.contains(true),
{
    let mut i: usize = 0;
    while i < alive.len()
        invariant
            0 <= i <= alive@.len(),
            forall|j: int| 0 <= j < i ==> !alive@[j],
        decreases alive@.len() - i,
    {
        if alive[i] {
            return true;
        }
        i += 1;
    }
    false
}

} // verus!
