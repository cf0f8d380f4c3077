use vstd::prelude::*;

verus! {

/// The character of a decimal digit `d` (`0 <= d < 10`).
pub open spec fn digit_char(d: nat) -> char {
    (48 + d) as char
}

/// The decimal representation of `n`, without sign or leading zeros,
/// as `Display` writes an unsigned integer.
pub open spec fn decimal(n: nat) -> Seq<char>
    decreases n,
{
    if n < 10 {
        seq![digit_char(n)]
    } else {
        decimal(n / 10).push(digit_char(n % 10))
    }
}

fn digit_str(d: u64) -> (s: &'static str)
    requires
        d < 10,
    ensures
        s@ == seq![digit_char(d as nat)],
{
    proof {
        reveal_strlit("0");
        reveal_strlit("1");
        reveal_strlit("2");
        reveal_strlit("3");
        reveal_strlit("4");
        reveal_strlit("5");
        reveal_strlit("6");
        reveal_strlit("7");
        reveal_strlit("8");
        reveal_strlit("9");
    }
    if d == 0 {
        "0"
    } else if d == 1 {
        "1"
    } else if d == 2 {
        "2"
    } else if d == 3 {
        "3"
    } else if d == 4 {
        "4"
    } else if d == 5 {
        "5"
    } else if d == 6 {
        "6"
    } else if d == 7 {
        "7"
    } else if d == 8 {
        "8"
    } else {
        "9"
    }
}

/// Appends the decimal representation of `n` to `out`.
pub fn push_decimal(out: &mut String, n: u64)
    ensures
        final(out)@ == old(out)@ + decimal(n as nat),
    decreases n,
{
    if n < 10 {
        out.append(digit_str(n));
    } else {
        push_decimal(out, n / 10);
        out.append(digit_str(n % 10));
        proof {
            assert(decimal(n as nat) == decimal((n / 10) as nat).push(digit_char((n % 10) as nat)));
        }
    }
}

/// Whether two strings hold the same characters.
pub fn str_eq(a: &str, b: &str) -> (r: bool)
    ensures
        r == (a@ == b@),
{
    let n = a.unicode_len();
    if n != b.unicode_len() {
        return false;
    }
    let mut i: usize = 0;
    while i < n
        invariant
            n == a@.len(),
            n == b@.len(),
            0 <= i <= n,
            forall|j: int| 0 <= j < i ==> a@[j] == b@[j],
        decreases n - i,
    {
        if a.get_char(i) != b.get_char(i) {
            return false;
        }
        i += 1;
    }
    proof {
        assert(a@ =~= b@);
    }
    true
}


/// The characters of a string.
pub fn chars_of(s: &str) -> (v: Vec<char>)
    ensures
        v@ == s@,
{
    let mut v: Vec<char> = Vec::new();
    for c in it: s.chars()
        invariant
            v@ == it.seq().take(it.index() as int),
            it.seq() == s@,
    {
        v.push(c);
    }
    v
}

/// The string made of `s[from..to]`.
pub fn substring(s: &str, from: usize, to: usize) -> (r: String)
    requires
        from <= to <= s@.len(),
    ensures
        r@ == s@.subrange(from as int, to as int),
{
    String::from_str(s.substring_char(from, to))
}

// ---------------------------------------------------------------------------
// Whitespace and words
// ---------------------------------------------------------------------------

/// `char::is_whitespace`: the character has the Unicode `White_Space` property.
pub open spec fn is_white_space(c: char) -> bool {
    let u = c as u32;
    ||| 0x09 <= u <= 0x0D
    ||| u == 0x20
    ||| u == 0x85
    ||| u == 0xA0
    ||| u == 0x1680
    ||| 0x2000 <= u <= 0x200A
    ||| u == 0x2028
    ||| u == 0x2029
    ||| u == 0x202F
    ||| u == 0x205F
    ||| u == 0x3000
}

/// Whether `c` has the Unicode `White_Space` property.
pub fn is_whitespace_char(c: char) -> (r: bool)
    ensures
        r == is_white_space(c),
{
    let u = c as u32;
    (0x09 <= u && u <= 0x0D) || u == 0x20 || u == 0x85 || u == 0xA0 || u == 0x1680 || (0x2000 <= u
        && u <= 0x200A) || u == 0x2028 || u == 0x2029 || u == 0x202F || u == 0x205F || u == 0x3000
}

/// The word being read, as a list of zero or one words.
pub open spec fn flush(cur: Seq<char>) -> Seq<Seq<char>> {
    if cur.len() == 0 {
        Seq::empty()
    } else {
        seq![cur]
    }
}

/// The words of `s` from position `i` on, `cur` being the part of a word read so far.
pub open spec fn split_ws(s: Seq<char>, i: nat, cur: Seq<char>) -> Seq<Seq<char>>
    decreases s.len() - i,
{
    if i >= s.len() {
        flush(cur)
    } else if is_white_space(s[i as int]) {
        flush(cur) + split_ws(s, i + 1, Seq::empty())
    } else {
        split_ws(s, i + 1, cur.push(s[i as int]))
    }
}

/// The maximal runs of non-whitespace characters of `s`, in order
/// (`str::split_whitespace`).
pub open spec fn words(s: Seq<char>) -> Seq<Seq<char>> {
    split_ws(s, 0, Seq::empty())
}

/// The text that each span `(start, end)` covers.
pub open spec fn span_texts(s: Seq<char>, spans: Seq<(usize, usize)>) -> Seq<Seq<char>> {
    spans.map_values(|p: (usize, usize)| s.subrange(p.0 as int, p.1 as int))
}

/// The positions of the words of `cs`, as `(start, end)` pairs.
pub fn word_spans(cs: &Vec<char>) -> (spans: Vec<(usize, usize)>)
    ensures
        span_texts(cs@, spans@) == words(cs@),
        forall|k: int| 0 <= k < spans@.len() ==> (#[trigger] spans@[k]).0 <= spans@[k].1 <= cs@.len(),
{
    let ghost s = cs@;
    let n = cs.len();
    let mut spans: Vec<(usize, usize)> = Vec::new();
    let mut start: usize = 0;
    let mut i: usize = 0;
    proof {
        assert(span_texts(s, spans@) =~= Seq::<Seq<char>>::empty());
        assert(s.subrange(0, 0) =~= Seq::<char>::empty());
        assert(span_texts(s, spans@) + split_ws(s, 0, Seq::empty()) =~= words(s));
    }
    while i < n
        invariant
            s == cs@,
            n == s.len(),
            0 <= start <= i <= n,
            words(s) == span_texts(s, spans@) + split_ws(s, i as nat, s.subrange(start as int, i as int)),
            forall|k: int| 0 <= k < spans@.len() ==> (#[trigger] spans@[k]).0 <= spans@[k].1 <= n,
        decreases n - i,
    {
        let ghost old_spans = spans@;
        let ghost cur = s.subrange(start as int, i as int);
        if is_whitespace_char(cs[i]) {
            if start < i {
                spans.push((start, i));
                proof {
                    assert(span_texts(s, spans@) =~= span_texts(s, old_spans).push(cur));
                    assert(flush(cur) == seq![cur]);
                }
            } else {
                proof {
                    assert(cur =~= Seq::<char>::empty());
                }
            }
            start = i + 1;
            proof {
                assert(s.subrange(start as int, (i + 1) as int) =~= Seq::<char>::empty());
                assert(span_texts(s, spans@) =~= span_texts(s, old_spans) + flush(cur));
            }
        } else {
            proof {
                assert(cur.push(s[i as int]) =~= s.subrange(start as int, (i + 1) as int));
            }
        }
        i += 1;
    }
    let ghost cur = s.subrange(start as int, n as int);
    let ghost old_spans = spans@;
    if start < n {
        spans.push((start, n));
        proof {
            assert(span_texts(s, spans@) =~= span_texts(s, old_spans).push(cur));
        }
    } else {
        proof {
            assert(cur =~= Seq::<char>::empty());
            assert(span_texts(s, spans@) =~= span_texts(s, old_spans) + flush(cur));
        }
    }
    spans
}

// ---------------------------------------------------------------------------
// Searching
// ---------------------------------------------------------------------------

/// Position of the last occurrence of `c` in `s` (`str::rfind` with a `char`).
pub open spec fn rfind(s: Seq<char>, c: char) -> Option<int>
    decreases s.len(),
{
    if s.len() == 0 {
        None
    } else if s.last() == c {
        Some(s.len() - 1)
    } else {
        rfind(s.drop_last(), c)
    }
}

/// Position of the last occurrence of `c` in `cs`.
pub fn rfind_char(cs: &Vec<char>, c: char) -> (r: Option<usize>)
    ensures
        r matches Some(k) ==> rfind(cs@, c) == Some(k as int) && k < cs@.len(),
        r is None ==> rfind(cs@, c) is None,
{
    let mut i: usize = cs.len();
    proof {
        assert(cs@.take(i as int) =~= cs@);
    }
    while i > 0
        invariant
            0 <= i <= cs@.len(),
            rfind(cs@, c) == rfind(cs@.take(i as int), c),
        decreases i,
    {
        proof {
            assert(cs@.take(i as int).drop_last() =~= cs@.take(i - 1));
        }
        if cs[i - 1] == c {
            return Some(i - 1);
        }
        i -= 1;
    }
    None
}

/// `needle` occurs in `hay` at position `i`.
pub open spec fn occurs_at(hay: Seq<char>, needle: Seq<char>, i: int) -> bool {
    0 <= i && i + needle.len() <= hay.len() && hay.subrange(i, i + needle.len()) == needle
}

/// `needle` occurs somewhere in `hay` (`str::contains` with a `&str`).
pub open spec fn contains(hay: Seq<char>, needle: Seq<char>) -> bool {
    exists|i: int| #[trigger] occurs_at(hay, needle, i)
}

/// Whether `needle` occurs in `hay` at position `i`.
fn matches_at(hay: &Vec<char>, needle: &Vec<char>, i: usize) -> (r: bool)
    requires
        i + needle@.len() <= hay@.len(),
    ensures
        r == occurs_at(hay@, needle@, i as int),
{
    let mut k: usize = 0;
    while k < needle.len()
        invariant
            i + needle@.len() <= hay@.len(),
            hay@.len() == hay.len(),
            0 <= k <= needle@.len(),
            forall|j: int| 0 <= j < k ==> hay@[i + j] == needle@[j],
        decreases needle@.len() - k,
    {
        assert(i + k < hay@.len());
        if hay[i + k] != needle[k] {
            proof {
                assert(hay@.subrange(i as int, i + needle@.len())[k as int] != needle@[k as int]);
            }
            return false;
        }
        k += 1;
    }
    proof {
        assert(hay@.subrange(i as int, i + needle@.len()) =~= needle@);
    }
    true
}

/// Whether `needle` occurs in `hay`.
pub fn contains_chars(hay: &Vec<char>, needle: &Vec<char>) -> (r: bool)
    ensures
        r == contains(hay@, needle@),
{
    if needle.len() > hay.len() {
        proof {
            assert forall|i: int| !#[trigger] occurs_at(hay@, needle@, i) by {}
        }
        return false;
    }
    let last = hay.len() - needle.len();
    let mut i: usize = 0;
    loop
        invariant
            last == hay@.len() - needle@.len(),
            0 <= i <= last,
            forall|j: int| 0 <= j < i ==> !#[trigger] occurs_at(hay@, needle@, j),
        ensures
            i == last,
            forall|j: int| 0 <= j <= last ==> !#[trigger] occurs_at(hay@, needle@, j),
        decreases last - i,
    {
        if matches_at(hay, needle, i) {
            return true;
        }
        if i == last {
            break;
        }
        i += 1;
    }
    proof {
        assert forall|j: int| !#[trigger] occurs_at(hay@, needle@, j) by {
            if 0 <= j <= last {
            }
        }
    }
    false
}

/// `s` starts with `prefix`.
pub open spec fn starts_with(s: Seq<char>, prefix: Seq<char>) -> bool {
    prefix.len() <= s.len() && s.take(prefix.len() as int) == prefix
}

/// Whether `s` starts with `prefix`.
pub fn starts_with_chars(s: &Vec<char>, prefix: &Vec<char>) -> (r: bool)
    ensures
        r == starts_with(s@, prefix@),
{
    if prefix.len() > s.len() {
        return false;
    }
    let r = matches_at(s, prefix, 0);
    proof {
        assert(s@.subrange(0, prefix@.len() as int) =~= s@.take(prefix@.len() as int));
    }
    r
}

// ---------------------------------------------------------------------------
// Trimming
// ---------------------------------------------------------------------------

/// Number of leading characters of `s` that satisfy `p`.
pub open spec fn lead_count(s: Seq<char>, p: spec_fn(char) -> bool) -> nat
    decreases s.len(),
{
    if s.len() > 0 && p(s[0]) {
        1 + lead_count(s.drop_first(), p)
    } else {
        0
    }
}

/// Number of trailing characters of `s` that satisfy `p`.
pub open spec fn trail_count(s: Seq<char>, p: spec_fn(char) -> bool) -> nat
    decreases s.len(),
{
    if s.len() > 0 && p(s.last()) {
        1 + trail_count(s.drop_last(), p)
    } else {
        0
    }
}

/// `s` without the leading and trailing characters that satisfy `p`
/// (`str::trim_matches` with a predicate).
pub open spec fn trim_by(s: Seq<char>, p: spec_fn(char) -> bool) -> Seq<char> {
    let a = lead_count(s, p);
    if a >= s.len() {
        Seq::empty()
    } else {
        s.subrange(a as int, s.len() - trail_count(s, p))
    }
}

/// `s` without leading and trailing whitespace (`str::trim`).
pub open spec fn trim(s: Seq<char>) -> Seq<char> {
    trim_by(s, |c: char| is_white_space(c))
}

/// `s` without leading and trailing `c` (`str::trim_matches` with a `char`).
pub open spec fn trim_char(s: Seq<char>, c: char) -> Seq<char> {
    trim_by(s, is_char(c))
}

/// The predicate "equals `c`".
pub open spec fn is_char(c: char) -> spec_fn(char) -> bool {
    |x: char| x == c
}

proof fn lemma_lead_count(s: Seq<char>, p: spec_fn(char) -> bool, i: int)
    requires
        0 <= i <= s.len(),
        forall|j: int| 0 <= j < i ==> p(#[trigger] s[j]),
        i < s.len() ==> !p(s[i]),
    ensures
        lead_count(s, p) == i,
    decreases i,
{
    if i > 0 {
        lemma_lead_count(s.drop_first(), p, i - 1);
    }
}

proof fn lemma_trail_count(s: Seq<char>, p: spec_fn(char) -> bool, i: int)
    requires
        0 <= i <= s.len(),
        forall|j: int| s.len() - i <= j < s.len() ==> p(#[trigger] s[j]),
        i < s.len() ==> !p(s[s.len() - 1 - i]),
    ensures
        trail_count(s, p) == i,
    decreases i,
{
    if i > 0 {
        lemma_trail_count(s.drop_last(), p, i - 1);
    }
}

/// Positions `(from, to)` of `s` without its leading and trailing whitespace.
pub fn trim_bounds(cs: &Vec<char>) -> (r: (usize, usize))
    ensures
        r.0 <= r.1 <= cs@.len(),
        cs@.subrange(r.0 as int, r.1 as int) == trim(cs@),
{
    let ghost p = |c: char| is_white_space(c);
    let n = cs.len();
    let mut a: usize = 0;
    while a < n && is_whitespace_char(cs[a])
        invariant
            p == (|c: char| is_white_space(c)),
            0 <= a <= n,
            n == cs@.len(),
            forall|j: int| 0 <= j < a ==> p(#[trigger] cs@[j]),
        decreases n - a,
    {
        a += 1;
    }
    proof {
        lemma_lead_count(cs@, p, a as int);
    }
    if a == n {
        proof {
            assert(cs@.subrange(n as int, n as int) =~= Seq::<char>::empty());
        }
        return (n, n);
    }
    let mut b: usize = n;
    while b > a && is_whitespace_char(cs[b - 1])
        invariant
            p == (|c: char| is_white_space(c)),
            a < n,
            !p(cs@[a as int]),
            a <= b <= n,
            n == cs@.len(),
            forall|j: int| b <= j < n ==> p(#[trigger] cs@[j]),
        decreases b,
    {
        b -= 1;
    }
    proof {
        assert(b > a);
        lemma_trail_count(cs@, p, (n - b) as int);
    }
    (a, b)
}

/// Positions `(from, to)` of `s` without its leading and trailing `c`.
pub fn trim_char_bounds(cs: &Vec<char>, c: char) -> (r: (usize, usize))
    ensures
        r.0 <= r.1 <= cs@.len(),
        cs@.subrange(r.0 as int, r.1 as int) == trim_char(cs@, c),
{
    let ghost p = is_char(c);
    let n = cs.len();
    let mut a: usize = 0;
    while a < n && cs[a] == c
        invariant
            p == is_char(c),
            0 <= a <= n,
            n == cs@.len(),
            forall|j: int| 0 <= j < a ==> p(#[trigger] cs@[j]),
        decreases n - a,
    {
        a += 1;
    }
    proof {
        lemma_lead_count(cs@, p, a as int);
    }
    if a == n {
        proof {
            assert(cs@.subrange(n as int, n as int) =~= Seq::<char>::empty());
        }
        return (n, n);
    }
    let mut b: usize = n;
    while b > a && cs[b - 1] == c
        invariant
            p == is_char(c),
            a < n,
            !p(cs@[a as int]),
            a <= b <= n,
            n == cs@.len(),
            forall|j: int| b <= j < n ==> p(#[trigger] cs@[j]),
        decreases b,
    {
        b -= 1;
    }
    proof {
        assert(b > a);
        lemma_trail_count(cs@, p, (n - b) as int);
    }
    (a, b)
}


// ---------------------------------------------------------------------------
// Numbers
// ---------------------------------------------------------------------------

/// The value of a digit character (`char::to_digit`): `0`-`9`, then `a`-`z`
/// or `A`-`Z` for ten and up; 36 for any other character.
pub open spec fn digit_value(c: char) -> nat {
    let u = c as u32;
    if 48 <= u <= 57 {
        (u - 48) as nat
    } else if 97 <= u <= 122 {
        (u - 87) as nat
    } else if 65 <= u <= 90 {
        (u - 55) as nat
    } else {
        36
    }
}

/// The value of a string of digits in base `radix`, if each is a digit of it.
pub open spec fn digits_value(ds: Seq<char>, radix: nat) -> Option<nat>
    decreases ds.len(),
{
    if ds.len() == 0 {
        Some(0)
    } else {
        match digits_value(ds.drop_last(), radix) {
            Some(v) => if digit_value(ds.last()) < radix {
                Some(v * radix + digit_value(ds.last()))
            } else {
                None
            },
            None => None,
        }
    }
}

/// `from_str_radix` of an unsigned integer type whose largest value is
/// `limit`: an optional `+` and at least one digit of the base, whose value
/// is at most `limit`.
pub open spec fn parse_unsigned(s: Seq<char>, radix: nat, limit: nat) -> Option<nat> {
    let ds = if s.len() > 0 && s[0] == '+' {
        s.drop_first()
    } else {
        s
    };
    if ds.len() == 0 {
        None
    } else {
        match digits_value(ds, radix) {
            Some(v) => if v <= limit {
                Some(v)
            } else {
                None
            },
            None => None,
        }
    }
}

/// `u32::from_str_radix`.
pub open spec fn parse_u32(s: Seq<char>, radix: nat) -> Option<u32> {
    match parse_unsigned(s, radix, u32::MAX as nat) {
        Some(v) => Some(v as u32),
        None => None,
    }
}

/// `usize::from_str` (decimal).
pub open spec fn parse_usize(s: Seq<char>) -> Option<usize> {
    match parse_unsigned(s, 10, usize::MAX as nat) {
        Some(v) => Some(v as usize),
        None => None,
    }
}

proof fn lemma_digits_prefix_none(ds: Seq<char>, radix: nat, m: int)
    requires
        0 <= m <= ds.len(),
        digits_value(ds.take(m), radix) is None,
    ensures
        digits_value(ds, radix) is None,
    decreases ds.len(),
{
    if ds.len() > m {
        assert(ds.drop_last().take(m) =~= ds.take(m));
        lemma_digits_prefix_none(ds.drop_last(), radix, m);
    } else {
        assert(ds.take(m) =~= ds);
    }
}

proof fn lemma_digits_prefix_big(ds: Seq<char>, radix: nat, m: int, v: nat, limit: nat)
    requires
        0 <= m <= ds.len(),
        radix >= 1,
        digits_value(ds.take(m), radix) == Some(v),
        v > limit,
    ensures
        digits_value(ds, radix) is None || digits_value(ds, radix).unwrap() > limit,
    decreases ds.len(),
{
    if ds.len() > m {
        assert(ds.drop_last().take(m) =~= ds.take(m));
        lemma_digits_prefix_big(ds.drop_last(), radix, m, v, limit);
        match digits_value(ds.drop_last(), radix) {
            Some(w) => {
                assert(w * radix >= w) by (nonlinear_arith)
                    requires
                        radix >= 1,
                        w >= 0,
                ;
            },
            None => {},
        }
    } else {
        assert(ds.take(m) =~= ds);
    }
}

/// The number that `cs[from..to]` spells in base `radix`, for an unsigned
/// type whose largest value is `limit` (`from_str_radix`).
pub fn parse_unsigned_chars(cs: &Vec<char>, from: usize, to: usize, radix: u32, limit: u64) -> (r:
    Option<u64>)
    requires
        from <= to <= cs@.len(),
        2 <= radix <= 36,
    ensures
        match parse_unsigned(cs@.subrange(from as int, to as int), radix as nat, limit as nat) {
            Some(v) => r == Some(v as u64),
            None => r is None,
        },
{
    let ghost s = cs@.subrange(from as int, to as int);
    let mut start = from;
    if from < to && cs[from] == '+' {
        start = from + 1;
    }
    let ghost ds = cs@.subrange(start as int, to as int);
    proof {
        if from < to && cs@[from as int] == '+' {
            assert(ds =~= s.drop_first());
        } else {
            assert(ds =~= s);
        }
    }
    if start == to {
        assert(ds.len() == 0);
        return None;
    }
    let mut v: u128 = 0;
    let mut over = false;
    let mut k: usize = start;
    proof {
        assert(ds.take(0) =~= Seq::<char>::empty());
    }
    while k < to
        invariant
            start <= k <= to <= cs@.len(),
            2 <= radix <= 36,
            ds == cs@.subrange(start as int, to as int),
            s == cs@.subrange(from as int, to as int),
            ds == (if s.len() > 0 && s[0] == '+' {
                s.drop_first()
            } else {
                s
            }),
            ds.len() > 0,
            !over ==> digits_value(ds.take(k - start), radix as nat) == Some(v as nat) && v
                <= limit,
            over ==> digits_value(ds.take(k - start), radix as nat) is Some && digits_value(
                ds.take(k - start),
                radix as nat,
            ).unwrap() > limit,
        decreases to - k,
    {
        let c = cs[k];
        let u = c as u32;
        let d: u32 = if 48 <= u && u <= 57 {
            u - 48
        } else if 97 <= u && u <= 122 {
            u - 87
        } else if 65 <= u && u <= 90 {
            u - 55
        } else {
            36
        };
        let ghost pre = ds.take(k - start);
        let ghost next = ds.take(k + 1 - start);
        proof {
            assert(next.drop_last() =~= pre);
            assert(next.last() == c);
            assert(d == digit_value(c));
        }
        if d >= radix {
            proof {
                lemma_digits_prefix_none(ds, radix as nat, k + 1 - start);
            }
            return None;
        }
        if !over {
            proof {
                assert(v * radix + d <= 0xFFFF_FFFF_FFFF_FFFF * 36 + 36) by (nonlinear_arith)
                    requires
                        v <= 0xFFFF_FFFF_FFFF_FFFF,
                        radix <= 36,
                        d < 36,
                ;
            }
            let nv = v * (radix as u128) + (d as u128);
            if nv > limit as u128 {
                over = true;
            } else {
                v = nv;
            }
        } else {
            proof {
                let w = digits_value(pre, radix as nat).unwrap();
                assert(w * radix >= w) by (nonlinear_arith)
                    requires
                        radix >= 1,
                        w >= 0,
                ;
            }
        }
        k += 1;
    }
    proof {
        assert(ds.take(to - start) =~= ds);
    }
    if over {
        None
    } else {
        Some(v as u64)
    }
}

/// The number that `cs[from..to]` spells in base `radix` (`u32::from_str_radix`).
pub fn parse_u32_chars(cs: &Vec<char>, from: usize, to: usize, radix: u32) -> (r: Option<u32>)
    requires
        from <= to <= cs@.len(),
        2 <= radix <= 36,
    ensures
        r == parse_u32(cs@.subrange(from as int, to as int), radix as nat),
{
    match parse_unsigned_chars(cs, from, to, radix, 0xFFFF_FFFF) {
        Some(v) => Some(v as u32),
        None => None,
    }
}

/// A decimal number, as `str::parse::<usize>` reads it.
pub fn parse_usize_str(s: &str) -> (r: Option<usize>)
    ensures
        r == parse_usize(s@),
{
    let cs = chars_of(s);
    proof {
        assert(cs@.subrange(0, cs@.len() as int) =~= cs@);
    }
    match parse_unsigned_chars(&cs, 0, cs.len(), 10, usize::MAX as u64) {
        Some(v) => Some(v as usize),
        None => None,
    }
}

proof fn lemma_digits_push(ds: Seq<char>, c: char, radix: nat)
    ensures
        digits_value(ds.push(c), radix) == (match digits_value(ds, radix) {
            Some(v) => if digit_value(c) < radix {
                Some(v * radix + digit_value(c))
            } else {
                None
            },
            None => None,
        }),
{
    assert(ds.push(c).drop_last() =~= ds);
}

proof fn lemma_decimal_digits(n: nat)
    ensures
        digits_value(decimal(n), 10) == Some(n),
        decimal(n).len() >= 1,
        decimal(n)[0] != '+',
        forall|i: int| 0 <= i < decimal(n).len() ==> 48 <= #[trigger] (decimal(n)[i] as u32) <= 57,
    decreases n,
{
    let d = n % 10;
    assert((digit_char(d) as u32) == 48 + d);
    assert(digit_value(digit_char(d)) == d);
    if n < 10 {
        assert(d == n);
        assert(decimal(n) =~= seq![digit_char(n)]);
        assert(decimal(n).drop_last() =~= Seq::<char>::empty());
        assert(digits_value(decimal(n).drop_last(), 10) == Some(0nat));
        assert(decimal(n).last() == digit_char(d));
        assert((decimal(n)[0] as u32) == 48 + d);
    } else {
        lemma_decimal_digits(n / 10);
        lemma_digits_push(decimal(n / 10), digit_char(d), 10);
        assert(n / 10 * 10 + d == n);
        assert forall|i: int| 0 <= i < decimal(n).len() implies 48 <= #[trigger] (decimal(n)[i] as u32)
            <= 57 by {
            if i < decimal(n / 10).len() {
                assert(decimal(n)[i] == decimal(n / 10)[i]);
            }
        }
        assert((decimal(n)[0] as u32) >= 48);
    }
}

/// Reading a number back: `u32::from_str` gives back the value whose
/// decimal representation it reads.
pub proof fn lemma_parse_decimal(n: nat)
    requires
        n <= u32::MAX,
    ensures
        parse_u32(decimal(n), 10) == Some(n as u32),
{
    lemma_decimal_digits(n);
}

/// Reading a number back in any unsigned type: `from_str` of a type whose
/// largest value is `limit` gives back every value up to `limit` from its
/// decimal representation.
pub proof fn lemma_parse_unsigned_decimal(n: nat, limit: nat)
    requires
        n <= limit,
    ensures
        parse_unsigned(decimal(n), 10, limit) == Some(n),
{
    lemma_decimal_digits(n);
}

/// Reading a word: a run of non-whitespace characters joins the word read so far.
proof fn lemma_split_word(s: Seq<char>, i: nat, cur: Seq<char>, k: nat)
    requires
        i + k <= s.len(),
        forall|j: int| i <= j < i + k ==> !is_white_space(#[trigger] s[j]),
    ensures
        split_ws(s, i, cur) == split_ws(s, i + k, cur + s.subrange(i as int, (i + k) as int)),
    decreases k,
{
    if k == 0 {
        assert(cur + s.subrange(i as int, i as int) =~= cur);
    } else {
        assert(!is_white_space(s[i as int]));
        assert(split_ws(s, i, cur) == split_ws(s, i + 1, cur.push(s[i as int])));
        lemma_split_word(s, i + 1, cur.push(s[i as int]), (k - 1) as nat);
        assert(cur.push(s[i as int]) + s.subrange(i + 1int, (i + k) as int) =~= cur + s.subrange(
            i as int,
            (i + k) as int,
        ));
    }
}

/// The words of `" " + first + " " + second + rest`, where the two words
/// hold no whitespace and `rest` is empty or starts with whitespace, begin
/// with `first` and `second`.
pub proof fn lemma_two_words(first: Seq<char>, second: Seq<char>, rest: Seq<char>)
    requires
        first.len() > 0,
        second.len() > 0,
        forall|j: int| 0 <= j < first.len() ==> !is_white_space(#[trigger] first[j]),
        forall|j: int| 0 <= j < second.len() ==> !is_white_space(#[trigger] second[j]),
        rest.len() > 0 ==> is_white_space(rest[0]),
    ensures
        words(seq![' '] + first + seq![' '] + second + rest).len() >= 2,
        words(seq![' '] + first + seq![' '] + second + rest)[0] == first,
        words(seq![' '] + first + seq![' '] + second + rest)[1] == second,
{
    let s = seq![' '] + first + seq![' '] + second + rest;
    let a = first.len() as int;
    let b = second.len() as int;
    assert(is_white_space(s[0]));
    assert(split_ws(s, 0, Seq::empty()) == flush(Seq::<char>::empty()) + split_ws(s, 1, Seq::empty()));
    assert(flush(Seq::<char>::empty()) =~= Seq::<Seq<char>>::empty());
    assert forall|j: int| 1 <= j < 1 + a implies !is_white_space(#[trigger] s[j]) by {
        assert(s[j] == first[j - 1]);
    }
    lemma_split_word(s, 1, Seq::empty(), a as nat);
    assert(Seq::<char>::empty() + s.subrange(1, 1 + a) =~= first);
    assert(s[1 + a] == ' ');
    assert(split_ws(s, (1 + a) as nat, first) == flush(first) + split_ws(s, (2 + a) as nat, Seq::empty()));
    assert forall|j: int| 2 + a <= j < 2 + a + b implies !is_white_space(#[trigger] s[j]) by {
        assert(s[j] == second[j - 2 - a]);
    }
    lemma_split_word(s, (2 + a) as nat, Seq::empty(), b as nat);
    assert(Seq::<char>::empty() + s.subrange(2 + a, 2 + a + b) =~= second);
    let tail = split_ws(s, (2 + a + b) as nat, second);
    if rest.len() == 0 {
        assert(tail == flush(second));
        assert(tail =~= seq![second]);
    } else {
        assert(s[2 + a + b] == rest[0]);
        assert(tail == flush(second) + split_ws(s, (3 + a + b) as nat, Seq::empty()));
        assert(tail[0] == second);
    }
    assert(words(s) == flush(first) + tail);
    assert(flush(first) =~= seq![first]);
}

/// Decimal representations hold no whitespace, `)` or other non-digit.
pub proof fn lemma_decimal_is_digits(n: nat)
    ensures
        decimal(n).len() >= 1,
        forall|i: int| 0 <= i < decimal(n).len() ==> 48 <= #[trigger] (decimal(n)[i] as u32) <= 57,
{
    lemma_decimal_digits(n);
}

/// Appending text without `c` does not move the last `c`.
pub proof fn lemma_rfind_append(s: Seq<char>, t: Seq<char>, c: char)
    requires
        forall|i: int| 0 <= i < t.len() ==> t[i] != c,
    ensures
        rfind(s + t, c) == rfind(s, c),
    decreases t.len(),
{
    if t.len() == 0 {
        assert(s + t =~= s);
    } else {
        assert((s + t).drop_last() =~= s + t.drop_last());
        assert((s + t).last() == t.last());
        lemma_rfind_append(s, t.drop_last(), c);
    }
}

// ---------------------------------------------------------------------------
// Case
// ---------------------------------------------------------------------------

/// What `str::to_lowercase` gives for a string: each character replaced by
/// its Unicode lowercase mapping.
pub uninterp spec fn lowercase(s: Seq<char>) -> Seq<char>;

/// Calls `str::to_lowercase`. Its result depends on the string alone (the
/// Unicode tables of the standard library); it is named, not described.
#[verifier::external_body]
pub(crate) fn to_lowercase(s: &str) -> (r: String)
    ensures
        r@ == lowercase(s@),
{
    s.to_lowercase()
}

} // verus!
