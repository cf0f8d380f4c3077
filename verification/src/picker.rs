//! Choosing windows by clicking on them.
use vstd::prelude::*;

use crate::text::{
    decimal, lemma_decimal_is_digits, lemma_parse_unsigned_decimal, parse_usize, parse_usize_str,
    push_decimal, str_eq,
};
use crate::types::TerminalWindow;
use crate::x11::{is_terminal_class, terminal_class};

verus! {

/// Which windows to tile: all terminal windows, or a number picked by clicking.
#[derive(Debug, Clone, Copy, PartialEq, Eq, Structural)]
pub enum PickMode {
    /// Every terminal window (`*`).
    All,
    /// This many windows, picked by clicking.
    Count(usize),
}

/// The choice that a `--pick` argument makes: `*` for all, or a number.
pub open spec fn pick_choice(pick: Seq<char>) -> Option<PickMode> {
    if pick == "*"@ {
        Some(PickMode::All)
    } else {
        match parse_usize(pick) {
            Some(n) => Some(PickMode::Count(n)),
            None => None,
        }
    }
}

/// A `--pick` number is a decimal count: every count, written in decimal,
/// picks that many windows, and `*` picks all of them.
pub proof fn lemma_pick_count_decimal(n: usize)
    ensures
        pick_choice(decimal(n as nat)) == Some(PickMode::Count(n)),
        pick_choice("*"@) == Some(PickMode::All),
{
    reveal_strlit("*");
    lemma_decimal_is_digits(n as nat);
    assert(48 <= (decimal(n as nat)[0] as u32) <= 57);
    assert(decimal(n as nat) != "*"@);
    lemma_parse_unsigned_decimal(n as nat, usize::MAX as nat);
}

/// Read a `--pick` argument: `*` or a number of windows; nothing when it is neither.
pub fn pick_mode(pick: &str) -> (r: Option<PickMode>)
    ensures
        r == pick_choice(pick@),
{
    if str_eq(pick, "*") {
        Some(PickMode::All)
    } else {
        match parse_usize_str(pick) {
            Some(n) => Some(PickMode::Count(n)),
            None => None,
        }
    }
}

/// The instruction shown before picking `count` windows.
pub open spec fn prompt_text(count: usize) -> Seq<char> {
    "Click on "@ + decimal(count as nat) + " terminal window"@ + (if count == 1 {
        ""@
    } else {
        "s"@
    }) + " to select "@ + (if count == 1 {
        "it"@
    } else {
        "them"@
    }) + " (Escape to cancel)"@
}

/// The instruction shown before picking `count` windows.
pub fn pick_prompt(count: usize) -> (s: String)
    ensures
        s@ == prompt_text(count),
{
    let mut s = String::from_str("Click on ");
    push_decimal(&mut s, count as u64);
    s.append(" terminal window");
    s.append(if count == 1 { "" } else { "s" });
    s.append(" to select ");
    s.append(if count == 1 { "it" } else { "them" });
    s.append(" (Escape to cancel)");
    s
}

/// The X keycode of Escape on common keyboards.
pub open spec fn escape_keycode() -> u8 {
    9
}

/// Whether a key press cancels picking.
pub fn cancels_picking(keycode: u8) -> (r: bool)
    ensures
        r == (keycode == escape_keycode()),
{
    keycode == 9
}

/// What becomes of a clicked window.
#[derive(Debug, Clone, Copy, PartialEq, Eq, Structural)]
pub enum Verdict {
    /// Not a window of a supported terminal: try again.
    NotTerminal,
    /// Already picked: try again.
    AlreadySelected,
    /// Picked.
    Accept,
}

/// The windows picked so far, towards a number wanted.
pub struct Picker {
    count: usize,
    selected: Vec<TerminalWindow>,
}

/// The ids of a list of windows.
pub open spec fn window_ids(ws: Seq<TerminalWindow>) -> Seq<u32> {
    ws.map_values(|w: TerminalWindow| w.id)
}

impl Picker {
    /// How many windows are wanted.
    pub closed spec fn wanted(&self) -> nat {
        self.count as nat
    }

    /// The windows picked so far, in the order they were clicked.
    pub closed spec fn picked(&self) -> Seq<TerminalWindow> {
        self.selected@
    }

    /// No window is picked twice, and no more are picked than wanted.
    pub open spec fn wf(&self) -> bool {
        &&& self.picked().len() <= self.wanted()
        &&& window_ids(self.picked()).no_duplicates()
    }

    /// Start picking `count` windows.
    pub fn new(count: usize) -> (p: Self)
        ensures
            p.wf(),
            p.wanted() == count,
            p.picked() == Seq::<TerminalWindow>::empty(),
    {
        let p = Picker { count, selected: Vec::new() };
        proof {
            assert(window_ids(p.picked()) =~= Seq::<u32>::empty());
        }
        p
    }

    /// Whether as many windows are picked as wanted.
    pub fn is_done(&self) -> (r: bool)
        ensures
            r == (self.picked().len() >= self.wanted()),
    {
        self.selected.len() >= self.count
    }

    /// Whether window `client` was picked already.
    pub fn has_window(&self, client: u32) -> (r: bool)
        ensures
            r == window_ids(self.picked()).contains(client),
    {
        let mut i: usize = 0;
        while i < self.selected.len()
            invariant
                0 <= i <= self.picked().len(),
                forall|j: int| 0 <= j < i ==> (#[trigger] self.picked()[j]).id != client,
            decreases self.picked().len() - i,
        {
            if self.selected[i].id == client {
                proof {
                    assert(window_ids(self.picked())[i as int] == client);
                }
                return true;
            }
            i += 1;
        }
        proof {
            if window_ids(self.picked()).contains(client) {
                let j = choose|j: int|
                    0 <= j < window_ids(self.picked()).len() && window_ids(self.picked())[j]
                        == client;
                assert(self.picked()[j].id == client);
            }
        }
        false
    }

    /// Judge the client window behind a click, given the text of its
    /// `WM_CLASS`: only windows of supported terminals not picked yet are taken.
    pub fn judge(&self, client: u32, raw_class: &str) -> (v: Verdict)
        ensures
            v == (if !terminal_class(raw_class@) {
                Verdict::NotTerminal
            } else if window_ids(self.picked()).contains(client) {
                Verdict::AlreadySelected
            } else {
                Verdict::Accept
            }),
    {
        if !is_terminal_class(raw_class) {
            Verdict::NotTerminal
        } else if self.has_window(client) {
            Verdict::AlreadySelected
        } else {
            Verdict::Accept
        }
    }

    /// Pick a window that was judged acceptable.
    pub fn select(&mut self, window: TerminalWindow)
        requires
            old(self).wf(),
            old(self).picked().len() < old(self).wanted(),
            !window_ids(old(self).picked()).contains(window.id),
        ensures
            final(self).wf(),
            final(self).wanted() == old(self).wanted(),
            final(self).picked() == old(self).picked().push(window),
    {
        let ghost before = self.selected@;
        self.selected.push(window);
        proof {
            assert(window_ids(self.selected@) =~= window_ids(before).push(window.id));
        }
    }

    /// The number of windows picked so far.
    pub fn picked_count(&self) -> (n: usize)
        ensures
            n == self.picked().len(),
    {
        self.selected.len()
    }

    /// The picked windows, in the order they were clicked.
    pub fn into_selected(self) -> (ws: Vec<TerminalWindow>)
        ensures
            ws@ == self.picked(),
    {
        self.selected
    }
}

} // verus!
