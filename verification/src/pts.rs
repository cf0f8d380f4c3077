//! Finding and titling the pseudo-terminals of terminal windows.
use vstd::prelude::*;

use crate::text::{
    chars_of, decimal, is_white_space, lemma_decimal_is_digits, lemma_parse_decimal, lemma_rfind_append, lemma_two_words, parse_u32, parse_u32_chars, push_decimal, rfind, rfind_char, span_texts,
    starts_with, starts_with_chars, word_spans, words,
};

verus! {

// ---------------------------------------------------------------------------
// /proc/<pid>/stat
// ---------------------------------------------------------------------------

/// The parent PID recorded in the contents of `/proc/<pid>/stat`
/// ("pid (comm) state ppid ..."): the second whitespace-separated field
/// after the last `)`, since the command name may itself hold spaces and
/// parentheses.
pub open spec fn ppid_field(stat: Seq<char>) -> Option<u32> {
    match rfind(stat, ')') {
        None => None,
        Some(k) => {
            let fields = words(stat.skip(k + 1));
            if fields.len() >= 2 {
                parse_u32(fields[1], 10)
            } else {
                None
            }
        },
    }
}

/// The parent PID reads back over the whole `u32` range: for any text
/// before the command name's closing `)` (the pid and the command name,
/// which may hold spaces and parentheses), any state word, and any further
/// fields, the stat line "... ) <state> <ppid> ..." gives back `ppid`.
pub proof fn lemma_ppid_round_trip(head: Seq<char>, state: Seq<char>, ppid: u32, tail: Seq<char>)
    requires
        state.len() > 0,
        forall|j: int|
            0 <= j < state.len() ==> !is_white_space(#[trigger] state[j]) && state[j] != ')',
        tail.len() > 0 ==> is_white_space(tail[0]),
        forall|j: int| 0 <= j < tail.len() ==> #[trigger] tail[j] != ')',
    ensures
        ppid_field(head + seq![')'] + (seq![' '] + state + seq![' '] + decimal(ppid as nat) + tail))
            == Some(ppid),
{
    let d = decimal(ppid as nat);
    let rest = seq![' '] + state + seq![' '] + d + tail;
    let stat = head + seq![')'] + rest;
    lemma_decimal_is_digits(ppid as nat);
    assert forall|j: int| 0 <= j < d.len() implies !is_white_space(#[trigger] d[j]) by {
        assert(48 <= (d[j] as u32) <= 57);
    }
    assert forall|j: int| 0 <= j < rest.len() implies #[trigger] rest[j] != ')' by {
        if 1 <= j < 1 + state.len() {
            assert(rest[j] == state[j - 1]);
        } else if 2 + state.len() <= j < 2 + state.len() + d.len() {
            assert(rest[j] == d[j - 2 - state.len()]);
            assert(48 <= (d[j - 2 - state.len()] as u32) <= 57);
        } else if j >= 2 + state.len() + d.len() {
            assert(rest[j] == tail[j - 2 - state.len() - d.len()]);
        }
    }
    lemma_rfind_append(head + seq![')'], rest, ')');
    assert((head + seq![')']).last() == ')');
    assert(rfind(head + seq![')'], ')') == Some(head.len() as int));
    assert(stat.skip(head.len() + 1int) =~= rest);
    lemma_two_words(state, d, tail);
    lemma_parse_decimal(ppid as nat);
}

/// The characters of `cs` from position `from` on.
fn tail_from(cs: &Vec<char>, from: usize) -> (v: Vec<char>)
    requires
        from <= cs@.len(),
    ensures
        v@ == cs@.skip(from as int),
{
    let mut v: Vec<char> = Vec::new();
    let mut i = from;
    while i < cs.len()
        invariant
            from <= i <= cs@.len(),
            v@ == cs@.subrange(from as int, i as int),
        decreases cs@.len() - i,
    {
        v.push(cs[i]);
        i += 1;
    }
    proof {
        assert(v@ =~= cs@.skip(from as int));
    }
    v
}

/// Parse PPID from /proc/<pid>/stat content.
/// Format: "pid (comm) state ppid ..." — comm can contain parens/spaces.
pub fn parse_ppid(stat: &str) -> (r: Option<u32>)
    ensures
        r == ppid_field(stat@),
{
    let cs = chars_of(stat);
    let close = match rfind_char(&cs, ')') {
        Some(k) => k,
        None => {
            return None;
        },
    };
    let n = cs.len();
    assert(close < n);
    let rest = tail_from(&cs, close + 1);
    let spans = word_spans(&rest);
    if spans.len() < 2 {
        return None;
    }
    // fields[0] = state, fields[1] = ppid
    let (a, b) = spans[1];
    proof {
        assert(span_texts(rest@, spans@)[1] == rest@.subrange(a as int, b as int));
    }
    parse_u32_chars(&rest, a, b, 10)
}

/// A decimal number, as `str::parse::<u32>` reads it.
pub fn parse_decimal(s: &str) -> (r: Option<u32>)
    ensures
        r == parse_u32(s@, 10),
{
    let cs = chars_of(s);
    proof {
        assert(cs@.subrange(0, cs@.len() as int) =~= cs@);
    }
    parse_u32_chars(&cs, 0, cs.len(), 10)
}

/// The path names a pseudo-terminal device (it starts with `/dev/pts/`).
pub fn is_pts_device(path: &str) -> (r: bool)
    ensures
        r == starts_with(path@, "/dev/pts/"@),
{
    let cs = chars_of(path);
    let prefix = chars_of("/dev/pts/");
    starts_with_chars(&cs, &prefix)
}

// ---------------------------------------------------------------------------
// Titles
// ---------------------------------------------------------------------------

/// The OSC 2 escape sequence that sets a terminal's window title.
pub open spec fn osc_title(title: Seq<char>) -> Seq<char> {
    "\x1b]2;"@ + title + "\x07"@
}

/// The bytes written to a pseudo-terminal to set its window title.
pub fn osc_title_sequence(title: &str) -> (s: String)
    ensures
        s@ == osc_title(title@),
{
    // OSC 2 = set window title
    let mut s = String::from_str("\x1b]2;");
    s.append(title);
    s.append("\x07");
    s
}

/// The prefix of the titles that probe which pseudo-terminal a window shows.
pub open spec fn probe_prefix() -> Seq<char> {
    "__TERMINALSORT_PROBE_"@
}

/// The probe title written to the terminal of process `pid`.
pub fn probe_title(pid: u32) -> (s: String)
    ensures
        s@ == probe_prefix() + decimal(pid as nat),
{
    let mut s = String::from_str("__TERMINALSORT_PROBE_");
    push_decimal(&mut s, pid as u64);
    s
}

/// The process that a window title names, if it is a probe title.
pub open spec fn probed_pid(title: Seq<char>) -> Option<u32> {
    if starts_with(title, probe_prefix()) {
        parse_u32(title.skip(probe_prefix().len() as int), 10)
    } else {
        None
    }
}

/// The process that a window title names, if it is a probe title.
pub fn probe_pid(title: &str) -> (r: Option<u32>)
    ensures
        r == probed_pid(title@),
{
    let cs = chars_of(title);
    let prefix = chars_of("__TERMINALSORT_PROBE_");
    if !starts_with_chars(&cs, &prefix) {
        return None;
    }
    proof {
        assert(cs@.subrange(prefix@.len() as int, cs@.len() as int) =~= cs@.skip(
            prefix@.len() as int,
        ));
    }
    parse_u32_chars(&cs, prefix.len(), cs.len(), 10)
}

/// A probe title names the process it was written for.
pub proof fn lemma_probe_round_trip(pid: u32)
    ensures
        probed_pid(probe_prefix() + decimal(pid as nat)) == Some(pid),
{
    let t = probe_prefix() + decimal(pid as nat);
    assert(t.take(probe_prefix().len() as int) =~= probe_prefix());
    assert(t.skip(probe_prefix().len() as int) =~= decimal(pid as nat));
    lemma_parse_decimal(pid as nat);
}

/// Position of the first `p` in `s`.
pub open spec fn first_index(s: Seq<u32>, p: u32) -> Option<int>
    decreases s.len(),
{
    if s.len() == 0 {
        None
    } else {
        match first_index(s.drop_last(), p) {
            Some(i) => Some(i),
            None => if s.last() == p {
                Some(s.len() - 1)
            } else {
                None
            },
        }
    }
}

/// The position found is that of the first `p`, and none is found only when
/// `p` does not occur.
pub proof fn lemma_first_index(s: Seq<u32>, p: u32)
    ensures
        match first_index(s, p) {
            Some(i) => 0 <= i < s.len() && s[i] == p && forall|j: int|
                0 <= j < i ==> #[trigger] s[j] != p,
            None => forall|j: int| 0 <= j < s.len() ==> #[trigger] s[j] != p,
        },
    decreases s.len(),
{
    if s.len() > 0 {
        lemma_first_index(s.drop_last(), p);
        assert forall|j: int| 0 <= j < s.len() - 1 implies s[j] == s.drop_last()[j] by {}
    }
}

/// Position of the first `p` in `pids`.
pub fn find_pid(pids: &Vec<u32>, p: u32) -> (r: Option<usize>)
    ensures
        r matches Some(i) ==> first_index(pids@, p) == Some(i as int),
        r is None ==> first_index(pids@, p) is None,
{
    let mut i: usize = 0;
    while i < pids.len()
        invariant
            0 <= i <= pids@.len(),
            first_index(pids@.take(i as int), p) is None,
        decreases pids@.len() - i,
    {
        proof {
            assert(pids@.take(i + 1).drop_last() =~= pids@.take(i as int));
        }
        if pids[i] == p {
            proof {
                lemma_first_index_prefix(pids@, p, i + 1);
            }
            return Some(i);
        }
        i += 1;
    }
    proof {
        assert(pids@.take(i as int) =~= pids@);
    }
    None
}

proof fn lemma_first_index_prefix(s: Seq<u32>, p: u32, m: int)
    requires
        0 <= m <= s.len(),
        first_index(s.take(m), p) is Some,
    ensures
        first_index(s, p) == first_index(s.take(m), p),
    decreases s.len(),
{
    if s.len() > m {
        assert(s.drop_last().take(m) =~= s.take(m));
        lemma_first_index_prefix(s.drop_last(), p, m);
    } else {
        assert(s.take(m) =~= s);
    }
}

/// For each window title, the child process (by position in `pids`) whose
/// probe title the window shows.
pub open spec fn probe_matches(titles: Seq<Seq<char>>, pids: Seq<u32>) -> Seq<Option<int>> {
    titles.map_values(
        |t: Seq<char>|
            match probed_pid(t) {
                Some(p) => first_index(pids, p),
                None => None,
            },
    )
}

/// Match windows to child processes by the probe titles the windows show:
/// entry `i` is the position in `pids` of the process whose probe title
/// window `i` shows, if any.
pub fn match_probes(titles: &Vec<String>, pids: &Vec<u32>) -> (r: Vec<Option<usize>>)
    ensures
        r@.len() == titles@.len(),
        forall|i: int|
            0 <= i < titles@.len() ==> match #[trigger] r@[i] {
                Some(k) => probe_matches(titles@.map_values(|t: String| t@), pids@)[i] == Some(
                    k as int,
                ),
                None => probe_matches(titles@.map_values(|t: String| t@), pids@)[i] is None,
            },
{
    let ghost ts = titles@.map_values(|t: String| t@);
    let mut r: Vec<Option<usize>> = Vec::new();
    let mut i: usize = 0;
    while i < titles.len()
        invariant
            0 <= i <= titles@.len(),
            ts == titles@.map_values(|t: String| t@),
            r@.len() == i,
            forall|j: int|
                0 <= j < i ==> match #[trigger] r@[j] {
                    Some(k) => probe_matches(ts, pids@)[j] == Some(k as int),
                    None => probe_matches(ts, pids@)[j] is None,
                },
        decreases titles@.len() - i,
    {
        let m = match probe_pid(titles[i].as_str()) {
            Some(p) => find_pid(pids, p),
            None => None,
        };
        r.push(m);
        i += 1;
    }
    r
}

/// Strategy one is done: every window was resolved by its own process, and
/// the windows are told apart, no id given twice (one map entry per window).
pub fn resolved_every_window(ids: &[u32], found: &Vec<bool>) -> (r: bool)
    requires
        found@.len() == ids@.len(),
    ensures
        r == ((forall|i: int| 0 <= i < found@.len() ==> found@[i]) && ids@.no_duplicates()),
{
    let mut i: usize = 0;
    while i < found.len()
        invariant
            0 <= i <= found@.len(),
            forall|j: int| 0 <= j < i ==> found@[j],
        decreases found@.len() - i,
    {
        if !found[i] {
            return false;
        }
        i += 1;
    }
    let mut a: usize = 0;
    while a < ids.len()
        invariant
            0 <= a <= ids@.len(),
            forall|p: int, q: int| 0 <= p < a && p < q < ids@.len() ==> ids@[p] != ids@[q],
        decreases ids@.len() - a,
    {
        let mut b: usize = a + 1;
        while b < ids.len()
            invariant
                a < ids@.len(),
                a + 1 <= b <= ids@.len(),
                forall|q: int| a < q < b ==> ids@[a as int] != ids@[q],
            decreases ids@.len() - b,
        {
            if ids[a] == ids[b] {
                return false;
            }
            b += 1;
        }
        a += 1;
    }
    true
}

} // verus!
