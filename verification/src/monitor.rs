//! Choosing the monitor to tile on.
use vstd::prelude::*;

use crate::text::{decimal, push_decimal};
use crate::types::Monitor;

verus! {

/// The name given to monitor `i` when the X server does not name it.
pub fn unnamed_monitor(i: usize) -> (s: String)
    ensures
        s@ == "Monitor "@ + decimal(i as nat),
{
    let mut s = String::from_str("Monitor ");
    push_decimal(&mut s, i as u64);
    s
}

/// Position of the first monitor with RANDR index `index`.
pub open spec fn monitor_position(ms: Seq<Monitor>, index: usize) -> Option<int>
    decreases ms.len(),
{
    if ms.len() == 0 {
        None
    } else {
        match monitor_position(ms.drop_last(), index) {
            Some(i) => Some(i),
            None => if ms.last().index == index {
                Some(ms.len() - 1)
            } else {
                None
            },
        }
    }
}

/// The monitor chosen is the first one with the requested index, and none
/// is chosen only when no monitor has it.
pub proof fn lemma_monitor_position(ms: Seq<Monitor>, index: usize)
    ensures
        match monitor_position(ms, index) {
            Some(i) => 0 <= i < ms.len() && ms[i].index == index && forall|j: int|
                0 <= j < i ==> (#[trigger] ms[j]).index != index,
            None => forall|j: int| 0 <= j < ms.len() ==> (#[trigger] ms[j]).index != index,
        },
    decreases ms.len(),
{
    if ms.len() > 0 {
        lemma_monitor_position(ms.drop_last(), index);
        assert forall|j: int| 0 <= j < ms.len() - 1 implies ms[j] == ms.drop_last()[j] by {}
    }
}

/// How a monitor is listed when the requested one is missing.
pub open spec fn monitor_line(m: Monitor) -> Seq<char> {
    "  "@ + decimal(m.index as nat) + ": "@ + m.name@ + " ("@ + decimal(m.width as nat) + "x"@
        + decimal(m.height as nat) + ")"@
}

/// The monitor lines, one per line.
pub open spec fn monitor_listing(ms: Seq<Monitor>) -> Seq<char>
    decreases ms.len(),
{
    if ms.len() == 0 {
        Seq::empty()
    } else if ms.len() == 1 {
        monitor_line(ms[0])
    } else {
        monitor_listing(ms.drop_last()) + "\n"@ + monitor_line(ms.last())
    }
}

/// The error for a monitor index that no monitor has.
pub open spec fn monitor_not_found(index: usize, ms: Seq<Monitor>) -> Seq<char> {
    "Monitor "@ + decimal(index as nat) + " not found. Available monitors:\n"@ + monitor_listing(ms)
}

proof fn lemma_position_prefix(ms: Seq<Monitor>, index: usize, m: int)
    requires
        0 <= m <= ms.len(),
        monitor_position(ms.take(m), index) is Some,
    ensures
        monitor_position(ms, index) == monitor_position(ms.take(m), index),
    decreases ms.len(),
{
    if ms.len() > m {
        assert(ms.drop_last().take(m) =~= ms.take(m));
        lemma_position_prefix(ms.drop_last(), index, m);
    } else {
        assert(ms.take(m) =~= ms);
    }
}

fn push_monitor_line(out: &mut String, m: &Monitor)
    ensures
        final(out)@ == old(out)@ + monitor_line(*m),
{
    out.append("  ");
    push_decimal(out, m.index as u64);
    out.append(": ");
    out.append(m.name.as_str());
    out.append(" (");
    push_decimal(out, m.width as u64);
    out.append("x");
    push_decimal(out, m.height as u64);
    out.append(")");
}

/// The message listing the available monitors when `index` is not one of them.
pub fn not_found_message(index: usize, monitors: &Vec<Monitor>) -> (s: String)
    ensures
        s@ == monitor_not_found(index, monitors@),
{
    let mut s = String::from_str("Monitor ");
    push_decimal(&mut s, index as u64);
    s.append(" not found. Available monitors:\n");
    let ghost head = s@;
    let mut i: usize = 0;
    proof {
        assert(monitors@.take(0) =~= Seq::<Monitor>::empty());
        assert(s@ =~= head + monitor_listing(monitors@.take(0)));
    }
    while i < monitors.len()
        invariant
            0 <= i <= monitors@.len(),
            s@ == head + monitor_listing(monitors@.take(i as int)),
            head == "Monitor "@ + decimal(index as nat) + " not found. Available monitors:\n"@,
        decreases monitors@.len() - i,
    {
        let ghost before = s@;
        proof {
            assert(monitors@.take(i + 1).drop_last() =~= monitors@.take(i as int));
        }
        if i > 0 {
            s.append("\n");
        }
        push_monitor_line(&mut s, &monitors[i]);
        proof {
            if i == 0 {
                assert(s@ =~= head + monitor_listing(monitors@.take(i + 1)));
            } else {
                assert(s@ =~= head + monitor_listing(monitors@.take(i + 1)));
            }
        }
        i += 1;
    }
    proof {
        assert(monitors@.take(i as int) =~= monitors@);
    }
    s
}

/// Get the monitor with RANDR index `index` from the listed monitors, or the
/// error message listing the available ones.
pub fn select_monitor(monitors: Vec<Monitor>, index: usize) -> (r: Result<Monitor, String>)
    ensures
        match monitor_position(monitors@, index) {
            Some(i) => r == Ok::<Monitor, String>(monitors@[i]),
            None => r matches Err(msg) && msg@ == monitor_not_found(index, monitors@),
        },
{
    let ghost ms = monitors@;
    let mut list = monitors;
    let mut i: usize = 0;
    while i < list.len()
        invariant
            list@ == ms,
            ms == monitors@,
            0 <= i <= ms.len(),
            monitor_position(ms.take(i as int), index) is None,
        decreases ms.len() - i,
    {
        proof {
            assert(ms.take(i + 1).drop_last() =~= ms.take(i as int));
        }
        if list[i].index == index {
            proof {
                assert(ms.take(i + 1).last() == ms[i as int]);
                assert(monitor_position(ms.take(i + 1), index) == Some(i as int));
                lemma_position_prefix(ms, index, i + 1);
            }
            let m = list.remove(i);
            assert(m == ms[i as int]);
            return Ok(m);
        }
        i += 1;
    }
    proof {
        assert(ms.take(i as int) =~= ms);
    }
    Err(not_found_message(index, &list))
}

} // verus!
