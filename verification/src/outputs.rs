//! Desktop-output derivation: mode selection, output naming, physical
//! properties and the tiling default that places each new output to the
//! right of all existing ones.

use vstd::prelude::*;

verus! {

/// One display timing the kernel offers on a connector.  Sizes are in
/// pixels, the refresh rate in millihertz.
#[derive(Clone, Copy, Debug, PartialEq, Eq, Structural)]
pub struct Mode {
    pub width: u16,
    pub height: u16,
    pub refresh_mhz: u32,
    pub preferred: bool,
}

/// The first kernel-preferred mode of a list, if any.
pub open spec fn first_preferred(s: Seq<Mode>) -> Option<Mode>
    decreases s.len(),
{
    if s.len() == 0 {
        None
    } else if s[0].preferred {
        Some(s[0])
    } else {
        first_preferred(s.drop_first())
    }
}

/// The mode an output is driven with: the kernel-preferred mode, falling
/// back to the first available; none when the connector offers none.
pub open spec fn spec_pick_mode(s: Seq<Mode>) -> Option<Mode> {
    match first_preferred(s) {
        Some(m) => Some(m),
        None => if s.len() == 0 {
            None
        } else {
            Some(s[0])
        },
    }
}

proof fn lemma_first_preferred_none(s: Seq<Mode>)
    requires
        forall|i: int| 0 <= i < s.len() ==> !(#[trigger] s[i]).preferred,
    ensures
        first_preferred(s) is None,
    decreases s.len(),
{
    if s.len() > 0 {
        lemma_first_preferred_none(s.drop_first());
    }
}

proof fn lemma_first_preferred_at(s: Seq<Mode>, i: int)
    requires
        0 <= i < s.len(),
        s[i].preferred,
        forall|j: int| 0 <= j < i ==> !(#[trigger] s[j]).preferred,
    ensures
        first_preferred(s) == Some(s[i]),
    decreases i,
{
    if i > 0 {
        lemma_first_preferred_at(s.drop_first(), i - 1);
    }
}

/// Pick the mode to drive an output with.
pub fn pick_mode(modes: &Vec<Mode>) -> (r: Option<Mode>)
    ensures
        r == spec_pick_mode(modes@),
{
    let mut i: usize = 0;
    while i < modes.len()
        invariant
            i <= modes.len(),
            forall|j: int| 0 <= j < i ==> !(#[trigger] modes@[j]).preferred,
        decreases modes.len() - i,
    {
        if modes[i].preferred {
            proof {
                lemma_first_preferred_at(modes@, i as int);
            }
            return Some(modes[i]);
        }
        i = i + 1;
    }
    proof {
        lemma_first_preferred_none(modes@);
    }
    if modes.len() > 0 {
        Some(modes[0])
    } else {
        None
    }
}

/// The decimal digit characters.
pub open spec fn digit_char(d: int) -> char {
    if d == 0 {
        '0'
    } else if d == 1 {
        '1'
    } else if d == 2 {
        '2'
    } else if d == 3 {
        '3'
    } else if d == 4 {
        '4'
    } else if d == 5 {
        '5'
    } else if d == 6 {
        '6'
    } else if d == 7 {
        '7'
    } else if d == 8 {
        '8'
    } else {
        '9'
    }
}

/// The decimal spelling of a number, most significant digit first.
pub open spec fn spec_decimal(n: nat) -> Seq<char>
    decreases n,
{
    if n < 10 {
        seq![digit_char(n as int)]
    } else {
        spec_decimal(n / 10).push(digit_char((n % 10) as int))
    }
}

fn digit_str(d: u32) -> (r: &'static str)
    requires
        d < 10,
    ensures
        r@ == seq![digit_char(d as int)],
{
    proof {
        reveal_strlit("0");
        reveal_strlit("1");
        reveal_strlit("2");
        reveal_strlit("3");
        reveal_strlit("4");
        reveal_strlit("5");
        reveal_strlit("6");
        reveal_strlit("7");
        reveal_strlit("8");
        reveal_strlit("9");
    }
    let r = if d == 0 {
        "0"
    } else if d == 1 {
        "1"
    } else if d == 2 {
        "2"
    } else if d == 3 {
        "3"
    } else if d == 4 {
        "4"
    } else if d == 5 {
        "5"
    } else if d == 6 {
        "6"
    } else if d == 7 {
        "7"
    } else if d == 8 {
        "8"
    } else {
        "9"
    };
    proof {
        assert(r@ =~= seq![digit_char(d as int)]);
    }
    r
}

/// Spell a number in decimal.
pub fn u32_decimal(n: u32) -> (s: String)
    ensures
        s@ == spec_decimal(n as nat),
    decreases n,
{
    if n < 10 {
        digit_str(n).to_owned()
    } else {
        let mut s = u32_decimal(n / 10);
        s.append(digit_str(n % 10));
        proof {
            assert(s@ =~= spec_decimal(n as nat));
        }
        s
    }
}

/// The name of a desktop output: the connector's interface name and index,
/// joined by a dash.
pub fn output_name(interface: &str, interface_id: u32) -> (s: String)
    ensures
        s@ == interface@ + seq!['-'] + spec_decimal(interface_id as nat),
{
    proof {
        reveal_strlit("-");
    }
    let mut s = interface.to_owned();
    s.append("-");
    let digits = u32_decimal(interface_id);
    s.append(digits.as_str());
    proof {
        assert(s@ =~= interface@ + seq!['-'] + spec_decimal(interface_id as nat));
    }
    s
}

/// Display make or model, defaulting to "Unknown" when the display's
/// identification data does not provide one.
pub fn name_or_unknown(v: Option<String>) -> (r: String)
    ensures
        v is Some ==> r@ == v->0@,
        v is None ==> r@ == "Unknown"@,
{
    match v {
        Some(s) => s,
        None => "Unknown".to_owned(),
    }
}

/// The sum of the given output widths.
pub open spec fn spec_sum_widths(s: Seq<u16>) -> int
    decreases s.len(),
{
    if s.len() == 0 {
        0
    } else {
        spec_sum_widths(s.drop_last()) + s.last()
    }
}

/// The x coordinate of a newly placed output: immediately right of all
/// existing outputs, that is the sum of their widths.  The count is bounded
/// so the sum stays within the coordinate space.
pub fn next_output_x(widths: &Vec<u16>) -> (x: u64)
    requires
        widths@.len() <= 0x1_0000_0000,
    ensures
        x as int == spec_sum_widths(widths@),
{
    let mut x: u64 = 0;
    let mut i: usize = 0;
    while i < widths.len()
        invariant
            i <= widths.len(),
            widths@.len() <= 0x1_0000_0000,
            x as int == spec_sum_widths(widths@.subrange(0, i as int)),
            x <= (i as u64) * 65535,
        decreases widths.len() - i,
    {
        assert(widths@.subrange(0, i + 1 as int).drop_last() =~= widths@.subrange(0, i as int));
        x = x + widths[i] as u64;
        i = i + 1;
    }
    assert(widths@.subrange(0, widths.len() as int) =~= widths@);
    x
}

/// The window designated fullscreen on one output, if any.  Windows are
/// referred to by identifier; the owner of the window tree tells the
/// compositor core which window covers the output.
pub struct FullscreenSurface {
    window: Option<u64>,
}

impl FullscreenSurface {
    /// The designated window.
    pub closed spec fn spec_get(&self) -> Option<u64> {
        self.window
    }

    pub fn new() -> (r: FullscreenSurface)
        ensures
            r.spec_get() is None,
    {
        FullscreenSurface { window: None }
    }

    /// Designate a window as fullscreen, superseding any earlier one.
    pub fn set(&mut self, window: u64)
        ensures
            final(self).spec_get() == Some(window),
    {
        self.window = Some(window);
    }

    /// The currently designated window.
    pub fn get(&self) -> (r: Option<u64>)
        ensures
            r == self.spec_get(),
    {
        self.window
    }

    /// Withdraw the designation, returning the window that held it.
    pub fn clear(&mut self) -> (r: Option<u64>)
        ensures
            r == old(self).spec_get(),
            final(self).spec_get() is None,
    {
        let r = self.window;
        self.window = None;
        r
    }
}

impl Default for FullscreenSurface {
    fn default() -> (r: FullscreenSurface)
        ensures
            r.spec_get() is None,
    {
        FullscreenSurface::new()
    }
}

} // verus!
