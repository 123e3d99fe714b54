//! Driver quirk table for plane selection.
//!
//! Overlay scanout is known unreliable on drivers that identify as
//! "nvidia", so overlay planes are excluded from the candidate plane set
//! before a CRTC is initialized on such a driver.  The match is a
//! case-insensitive substring test on the kernel driver's name and
//! description, kept behind a quirk value so the match stays in one place.

use vstd::prelude::*;

verus! {

/// ASCII upper-case letters fold to lower case; all other bytes stand.
pub open spec fn ascii_lower(b: u8) -> u8 {
    if 65 <= b && b <= 90 {
        (b + 32) as u8
    } else {
        b
    }
}

/// A byte string folded to ASCII lower case.
pub open spec fn lower_bytes(s: Seq<u8>) -> Seq<u8> {
    s.map_values(|b: u8| ascii_lower(b))
}

/// The driver tag the quirk matches on, already lower case.
pub open spec fn nvidia_tag() -> Seq<u8> {
    seq![110u8, 118u8, 105u8, 100u8, 105u8, 97u8]
}

/// `t` occurs contiguously inside `s`.
pub open spec fn contains_bytes(s: Seq<u8>, t: Seq<u8>) -> bool {
    exists|i: int| 0 <= i && i + t.len() <= s.len() && #[trigger] s.subrange(i, i + t.len()) == t
}

/// The driver identity matches the quirk tag, ignoring ASCII case.
pub open spec fn matches_nvidia(s: Seq<u8>) -> bool {
    contains_bytes(lower_bytes(s), nvidia_tag())
}

fn ascii_lower_byte(b: u8) -> (r: u8)
    ensures
        r == ascii_lower(b),
{
    if 65 <= b && b <= 90 {
        b + 32
    } else {
        b
    }
}

/// Case-insensitive search for the quirk tag in a driver identity string.
fn bytes_match_nvidia(s: &Vec<u8>) -> (r: bool)
    ensures
        r == matches_nvidia(s@),
{
    let ghost low = lower_bytes(s@);
    if s.len() < 6 {
        assert(!contains_bytes(low, nvidia_tag()));
        return false;
    }
    let n = s.len() - 5;
    let mut i: usize = 0;
    while i < n
        invariant
            s.len() >= 6,
            n == s.len() - 5,
            i <= n,
            low == lower_bytes(s@),
            forall|p: int| 0 <= p < i ==> #[trigger] low.subrange(p, p + 6) != nvidia_tag(),
        decreases n - i,
    {
        let mut k: usize = 0;
        let mut hit = true;
        while k < 6
            invariant
                i + 6 <= s.len(),
                k <= 6,
                low == lower_bytes(s@),
                hit ==> forall|m: int| 0 <= m < k ==> low[i + m] == nvidia_tag()[m],
                !hit ==> exists|m: int| 0 <= m < 6 && #[trigger] low[i + m] != nvidia_tag()[m],
            decreases 6 - k,
        {
            let b = ascii_lower_byte(s[i + k]);
            let t = nvidia_tag_byte(k);
            if b != t {
                hit = false;
                assert(low[i + k] != nvidia_tag()[k as int]);
                k = 6;
            } else {
                assert(low[i + k] == nvidia_tag()[k as int]);
                k = k + 1;
            }
        }
        if hit {
            assert(low.subrange(i as int, i + 6) =~= nvidia_tag());
            assert(contains_bytes(low, nvidia_tag()));
            return true;
        }
        assert(low.subrange(i as int, i + 6) != nvidia_tag()) by {
            if low.subrange(i as int, i + 6) == nvidia_tag() {
                let m = choose|m: int| 0 <= m < 6 && #[trigger] low[i + m] != nvidia_tag()[m];
                assert(low.subrange(i as int, i + 6)[m] == low[i + m]);
            }
        }
        i = i + 1;
    }
    assert(!contains_bytes(low, nvidia_tag())) by {
        if contains_bytes(low, nvidia_tag()) {
            let p = choose|p: int|
                0 <= p && p + 6 <= low.len() && #[trigger] low.subrange(p, p + 6) == nvidia_tag();
            assert(p < n);
        }
    }
    false
}

fn nvidia_tag_byte(k: usize) -> (r: u8)
    requires
        k < 6,
    ensures
        r == nvidia_tag()[k as int],
{
    if k == 0 {
        110
    } else if k == 1 {
        118
    } else if k == 2 {
        105
    } else if k == 3 {
        100
    } else if k == 4 {
        105
    } else {
        97
    }
}

/// The plane-selection quirks resolved for one driver.
#[derive(Clone, Copy, Debug, PartialEq, Eq, Structural)]
pub struct DriverQuirks {
    pub strip_overlay_planes: bool,
}

/// Resolve the quirk table from the kernel driver's name and description.
pub fn quirks_for_driver(name: &Vec<u8>, description: &Vec<u8>) -> (q: DriverQuirks)
    ensures
        q.strip_overlay_planes == (matches_nvidia(name@) || matches_nvidia(description@)),
{
    let strip = bytes_match_nvidia(name) || bytes_match_nvidia(description);
    DriverQuirks { strip_overlay_planes: strip }
}

/// The candidate planes of one CRTC, by hardware layer.
#[derive(Clone, Debug)]
pub struct Planes {
    pub primary: Vec<u32>,
    pub cursor: Vec<u32>,
    pub overlay: Vec<u32>,
}

impl Planes {
    /// The plane set actually claimed for a CRTC: quirked drivers lose
    /// every overlay plane, and nothing else changes.
    pub fn claim(self, quirks: DriverQuirks) -> (r: Planes)
        ensures
            r.primary@ == self.primary@,
            r.cursor@ == self.cursor@,
            r.overlay@ == if quirks.strip_overlay_planes {
                Seq::<u32>::empty()
            } else {
                self.overlay@
            },
    {
        if quirks.strip_overlay_planes {
            Planes { primary: self.primary, cursor: self.cursor, overlay: Vec::new() }
        } else {
            self
        }
    }
}

} // verus!
