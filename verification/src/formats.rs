//! Buffer-format negotiation between render and display hardware.
//!
//! A surface's dmabuf feedback has a render tranche (formats the rendering
//! GPU can produce) and a scanout tranche (display-plane formats restricted
//! to the render-capable union, so a render fallback always exists for any
//! buffer a client allocates from the scanout tranche).

use vstd::prelude::*;

verus! {

broadcast use
    vstd::seq_lib::lemma_seq_contains_after_push,
    vstd::seq_lib::lemma_seq_concat_contains_all_elements,
    vstd::seq_lib::lemma_seq_empty_contains_nothing,
;

/// A buffer format: fourcc code plus layout modifier.
#[derive(Clone, Copy, Debug, PartialEq, Eq, Structural)]
pub struct Format {
    pub code: u32,
    pub modifier: u64,
}

/// No format listed twice.
pub open spec fn unique_formats(s: Seq<Format>) -> bool {
    forall|i: int, j: int| 0 <= i < s.len() && 0 <= j < s.len() && i != j ==> s[i] != s[j]
}

/// The formats of `a` that `b` also holds, in `a`'s order.
pub open spec fn intersect_formats(a: Seq<Format>, b: Seq<Format>) -> Seq<Format>
    decreases a.len(),
{
    if a.len() == 0 {
        Seq::empty()
    } else {
        intersect_formats(a.drop_last(), b) + if b.contains(a.last()) {
            seq![a.last()]
        } else {
            Seq::empty()
        }
    }
}

/// Membership in an intersection is membership in both operands.
pub proof fn lemma_intersect_formats(a: Seq<Format>, b: Seq<Format>, f: Format)
    ensures
        intersect_formats(a, b).contains(f) <==> (a.contains(f) && b.contains(f)),
    decreases a.len(),
{
    if a.len() > 0 {
        lemma_intersect_formats(a.drop_last(), b, f);
        assert(a =~= a.drop_last().push(a.last()));
        assert(a.contains(f) <==> (a.drop_last().contains(f) || a.last() == f));
        if b.contains(a.last()) {
            assert(seq![a.last()].contains(a.last()));
        }
    }
}

/// Whether a format list holds the given format.
pub fn contains_format(v: &Vec<Format>, f: Format) -> (r: bool)
    ensures
        r == v@.contains(f),
{
    let mut i: usize = 0;
    while i < v.len()
        invariant
            i <= v.len(),
            forall|m: int| 0 <= m < i ==> v@[m] != f,
        decreases v.len() - i,
    {
        if v[i] == f {
            assert(v@.contains(f));
            return true;
        }
        i = i + 1;
    }
    assert(!v@.contains(f));
    false
}

/// The set union of two format lists, without duplicates.
pub fn format_union(a: &Vec<Format>, b: &Vec<Format>) -> (r: Vec<Format>)
    ensures
        forall|f: Format| r@.contains(f) <==> (a@.contains(f) || b@.contains(f)),
        unique_formats(r@),
{
    let mut out: Vec<Format> = Vec::new();
    let mut i: usize = 0;
    while i < a.len()
        invariant
            i <= a.len(),
            forall|f: Format| out@.contains(f) <==> a@.subrange(0, i as int).contains(f),
            unique_formats(out@),
        decreases a.len() - i,
    {
        let f = a[i];
        let ghost prev = out@;
        if !contains_format(&out, f) {
            out.push(f);
        }
        proof {
            assert(a@.subrange(0, i + 1 as int) =~= a@.subrange(0, i as int).push(f));
            assert forall|g: Format| out@.contains(g) <==> a@.subrange(
                0,
                i + 1 as int,
            ).contains(g) by {
                if out@ != prev {
                    assert(out@ == prev.push(f));
                } else {
                    assert(prev.contains(f));
                }
            }
        }
        i = i + 1;
    }
    assert(a@.subrange(0, a.len() as int) =~= a@);
    let mut j: usize = 0;
    while j < b.len()
        invariant
            j <= b.len(),
            forall|f: Format|
                out@.contains(f) <==> (a@.contains(f) || b@.subrange(0, j as int).contains(f)),
            unique_formats(out@),
        decreases b.len() - j,
    {
        let f = b[j];
        let ghost prev = out@;
        if !contains_format(&out, f) {
            out.push(f);
        }
        proof {
            assert(b@.subrange(0, j + 1 as int) =~= b@.subrange(0, j as int).push(f));
            assert forall|g: Format|
                out@.contains(g) <==> (a@.contains(g) || b@.subrange(
                    0,
                    j + 1 as int,
                ).contains(g)) by {
                if out@ != prev {
                    assert(out@ == prev.push(f));
                } else {
                    assert(prev.contains(f));
                }
            }
        }
        j = j + 1;
    }
    assert(b@.subrange(0, b.len() as int) =~= b@);
    out
}

/// The formats of `a` that `b` also holds.
pub fn format_intersection(a: &Vec<Format>, b: &Vec<Format>) -> (r: Vec<Format>)
    ensures
        r@ == intersect_formats(a@, b@),
{
    let mut out: Vec<Format> = Vec::new();
    let mut i: usize = 0;
    while i < a.len()
        invariant
            i <= a.len(),
            out@ == intersect_formats(a@.subrange(0, i as int), b@),
        decreases a.len() - i,
    {
        let f = a[i];
        if contains_format(b, f) {
            out.push(f);
        }
        assert(a@.subrange(0, i + 1 as int).drop_last() =~= a@.subrange(0, i as int));
        assert(a@.subrange(0, i + 1 as int).last() == a@[i as int]);
        assert(out@ =~= intersect_formats(a@.subrange(0, i + 1 as int), b@));
        i = i + 1;
    }
    assert(a@.subrange(0, a.len() as int) =~= a@);
    out
}

/// A fourcc code, from its four ASCII bytes, least significant first.
pub open spec fn spec_fourcc(a: u8, b: u8, c: u8, d: u8) -> u32 {
    (a + b * 0x100 + c * 0x10000 + d * 0x1000000) as u32
}

fn fourcc(a: u8, b: u8, c: u8, d: u8) -> (r: u32)
    ensures
        r == spec_fourcc(a, b, c, d),
{
    a as u32 + b as u32 * 0x100 + c as u32 * 0x10000 + d as u32 * 0x1000000
}

/// The fourcc codes offered to the buffer allocator, best first: the 10-bit
/// ABGR and ARGB layouts and their 8-bit fallbacks, or the 8-bit ones alone
/// when 10-bit scanout is disabled by configuration.
pub fn allocator_color_codes(ten_bit: bool) -> (r: Vec<u32>)
    ensures
        ten_bit ==> r@ == seq![
            spec_fourcc(65, 66, 51, 48),
            spec_fourcc(65, 82, 51, 48),
            spec_fourcc(65, 66, 50, 52),
            spec_fourcc(65, 82, 50, 52),
        ],
        !ten_bit ==> r@ == seq![spec_fourcc(65, 66, 50, 52), spec_fourcc(65, 82, 50, 52)],
{
    let mut v: Vec<u32> = Vec::new();
    if ten_bit {
        v.push(fourcc(65, 66, 51, 48));
        v.push(fourcc(65, 82, 51, 48));
        v.push(fourcc(65, 66, 50, 52));
        v.push(fourcc(65, 82, 50, 52));
        proof {
            assert(v@ =~= seq![
                spec_fourcc(65, 66, 51, 48),
                spec_fourcc(65, 82, 51, 48),
                spec_fourcc(65, 66, 50, 52),
                spec_fourcc(65, 82, 50, 52),
            ]);
        }
    } else {
        v.push(fourcc(65, 66, 50, 52));
        v.push(fourcc(65, 82, 50, 52));
        proof {
            assert(v@ =~= seq![spec_fourcc(65, 66, 50, 52), spec_fourcc(65, 82, 50, 52)]);
        }
    }
    v
}

/// Per-surface dmabuf feedback: the two tranches handed to clients.
#[derive(Clone, Debug)]
pub struct SurfaceDmabufFeedback {
    pub render_feedback: Vec<Format>,
    pub scanout_feedback: Vec<Format>,
}

/// Whether a format belongs in the scanout tranche computed from the given
/// primary-GPU, render-GPU and display-plane format lists.
pub open spec fn in_scanout_tranche(
    f: Format,
    primary: Seq<Format>,
    render: Seq<Format>,
    planes: Seq<Format>,
) -> bool {
    planes.contains(f) && (primary.contains(f) || render.contains(f))
}

impl SurfaceDmabufFeedback {
    /// The tranches a surface's feedback must hold, given the formats of the
    /// primary GPU, of the surface's rendering GPU, and of its display
    /// planes.
    pub open spec fn wf_for(
        &self,
        primary: Seq<Format>,
        render: Seq<Format>,
        planes: Seq<Format>,
    ) -> bool {
        &&& self.render_feedback@ == render
        &&& forall|f: Format|
            self.scanout_feedback@.contains(f) <==> in_scanout_tranche(f, primary, render, planes)
    }
}

/// Compute a surface's dmabuf feedback.  The render tranche is the rendering
/// GPU's format list; the scanout tranche is the display-plane formats
/// intersected with the union of all render-capable formats.
pub fn surface_dmabuf_feedback(
    primary_formats: &Vec<Format>,
    render_formats: &Vec<Format>,
    plane_formats: &Vec<Format>,
) -> (r: SurfaceDmabufFeedback)
    ensures
        r.wf_for(primary_formats@, render_formats@, plane_formats@),
{
    let all_render = format_union(primary_formats, render_formats);
    let scanout = format_intersection(plane_formats, &all_render);
    proof {
        assert forall|f: Format|
            scanout@.contains(f) <==> in_scanout_tranche(
                f,
                primary_formats@,
                render_formats@,
                plane_formats@,
            ) by {
            lemma_intersect_formats(plane_formats@, all_render@, f);
        }
    }
    SurfaceDmabufFeedback {
        render_feedback: render_formats.clone(),
        scanout_feedback: scanout,
    }
}

/// The scanout tranche never reaches outside the render tranche joined with
/// the display-plane formats, and every scanout format has a render
/// fallback on one of the GPUs.
pub proof fn lemma_scanout_tranche_fallback(
    fb: SurfaceDmabufFeedback,
    primary: Seq<Format>,
    render: Seq<Format>,
    planes: Seq<Format>,
)
    requires
        fb.wf_for(primary, render, planes),
    ensures
        forall|f: Format|
            fb.scanout_feedback@.contains(f) ==> (fb.render_feedback@.contains(f)
                || planes.contains(f)),
        forall|f: Format|
            fb.scanout_feedback@.contains(f) ==> (primary.contains(f) || render.contains(f)),
{
}

} // verus!
