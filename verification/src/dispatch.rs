//! Presentation-feedback dispatcher: turns render and submit outcomes into
//! per-client timing signals.
//!
//! Before a repaint, commit-timing barriers are released relative to the
//! frame being targeted, never to call-time wall clock.  After a successful
//! damaging render, one presentation-feedback record per output is built by
//! walking every client surface shown on it, with timing flags aggregated
//! from the frame's kernel completion metadata.

use vstd::prelude::*;

verus! {

/// Timing flags of a presentation-feedback record.  Every completion is
/// vsync-timed; the hardware flags hold exactly when the kernel supplied a
/// hardware timestamp with the vblank.
#[derive(Clone, Copy, Debug, PartialEq, Eq, Structural)]
pub struct FeedbackFlags {
    pub vsync: bool,
    pub hw_clock: bool,
    pub hw_completion: bool,
}

/// Aggregate the timing flags from the completion metadata.
pub fn presentation_flags(hw_timestamp: bool) -> (r: FeedbackFlags)
    ensures
        r.vsync,
        r.hw_clock == hw_timestamp,
        r.hw_completion == hw_timestamp,
{
    FeedbackFlags { vsync: true, hw_clock: hw_timestamp, hw_completion: hw_timestamp }
}

/// One outstanding commit-timing barrier of a client surface.
#[derive(Clone, Copy, Debug, PartialEq, Eq, Structural)]
pub struct CommitTimer {
    pub surface: u64,
    pub client: u64,
    pub deadline_ns: u64,
}

/// The surfaces whose barriers a pre-repaint pass releases: those with a
/// deadline at or before the targeted frame.
pub open spec fn spec_released(timers: Seq<CommitTimer>, frame_target_ns: u64) -> Seq<u64>
    decreases timers.len(),
{
    if timers.len() == 0 {
        Seq::empty()
    } else {
        spec_released(timers.drop_last(), frame_target_ns) + if timers.last().deadline_ns
            <= frame_target_ns {
            seq![timers.last().surface]
        } else {
            Seq::empty()
        }
    }
}

/// The clients of those surfaces, in the same order, with repeats.
pub open spec fn spec_released_clients(timers: Seq<CommitTimer>, frame_target_ns: u64) -> Seq<u64>
    decreases timers.len(),
{
    if timers.len() == 0 {
        Seq::empty()
    } else {
        spec_released_clients(timers.drop_last(), frame_target_ns) + if timers.last().deadline_ns
            <= frame_target_ns {
            seq![timers.last().client]
        } else {
            Seq::empty()
        }
    }
}

/// What a pre-repaint pass owes: the surfaces whose barriers to signal and
/// the clients whose blockers to flush afterwards, each client once.
pub struct PreRepaintPlan {
    pub released_surfaces: Vec<u64>,
    pub clients: Vec<u64>,
}

/// Release commit-timing barriers relative to the frame being targeted.
pub fn pre_repaint(timers: &Vec<CommitTimer>, frame_target_ns: u64) -> (r: PreRepaintPlan)
    ensures
        r.released_surfaces@ == spec_released(timers@, frame_target_ns),
        forall|c: u64|
            r.clients@.contains(c) <==> spec_released_clients(timers@, frame_target_ns).contains(
                c,
            ),
        r.clients@.no_duplicates(),
{
    let mut released: Vec<u64> = Vec::new();
    let mut clients: Vec<u64> = Vec::new();
    let mut i: usize = 0;
    while i < timers.len()
        invariant
            i <= timers.len(),
            released@ == spec_released(timers@.subrange(0, i as int), frame_target_ns),
            forall|c: u64|
                clients@.contains(c) <==> spec_released_clients(
                    timers@.subrange(0, i as int),
                    frame_target_ns,
                ).contains(c),
            clients@.no_duplicates(),
        decreases timers.len() - i,
    {
        broadcast use
            vstd::seq_lib::lemma_seq_contains_after_push,
            vstd::seq_lib::lemma_seq_concat_contains_all_elements,
            vstd::seq_lib::lemma_seq_empty_contains_nothing,
        ;

        let t = timers[i];
        let ghost clients_prev = clients@;
        if t.deadline_ns <= frame_target_ns {
            released.push(t.surface);
            if !contains_u64(&clients, t.client) {
                clients.push(t.client);
            }
        }
        proof {
            assert(timers@.subrange(0, i + 1 as int).drop_last() =~= timers@.subrange(0, i as int));
            assert(timers@.subrange(0, i + 1 as int).last() == timers@[i as int]);
            assert(released@ =~= spec_released(
                timers@.subrange(0, i + 1 as int),
                frame_target_ns,
            ));
            assert forall|c: u64|
                clients@.contains(c) <==> spec_released_clients(
                    timers@.subrange(0, i + 1 as int),
                    frame_target_ns,
                ).contains(c) by {
                if clients@ != clients_prev {
                    assert(clients@ == clients_prev.push(t.client));
                } else if t.deadline_ns <= frame_target_ns {
                    assert(clients_prev.contains(t.client));
                }
            }
        }
        i = i + 1;
    }
    assert(timers@.subrange(0, timers@.len() as int) =~= timers@);
    PreRepaintPlan { released_surfaces: released, clients }
}

/// Whether a list holds the given value.
pub fn contains_u64(v: &Vec<u64>, x: u64) -> (r: bool)
    ensures
        r == v@.contains(x),
{
    let mut i: usize = 0;
    while i < v.len()
        invariant
            i <= v.len(),
            forall|m: int| 0 <= m < i ==> v@[m] != x,
        decreases v.len() - i,
    {
        if v[i] == x {
            assert(v@.contains(x));
            return true;
        }
        i = i + 1;
    }
    assert(!v@.contains(x));
    false
}

/// One client surface as the post-repaint pass sees it.
#[derive(Clone, Copy, Debug, PartialEq, Eq, Structural)]
pub struct SurfaceScanout {
    pub client: u64,
    /// The output this surface is primarily scanned out on, if decided.
    pub primary_scanout: Option<u64>,
    /// An unsignalled fifo barrier is pending on the surface.
    pub has_fifo_barrier: bool,
    /// The surface was visible in the frame just rendered.
    pub visible_in_frame: bool,
}

/// The clients whose fifo barriers a post-repaint pass signals on this
/// output: a pending barrier counts when the surface's primary scanout
/// output is this one, or not decided yet.
pub open spec fn spec_fifo_clients(surfaces: Seq<SurfaceScanout>, output: u64) -> Seq<u64>
    decreases surfaces.len(),
{
    if surfaces.len() == 0 {
        Seq::empty()
    } else {
        spec_fifo_clients(surfaces.drop_last(), output) + if surfaces.last().has_fifo_barrier && (
        surfaces.last().primary_scanout is None || surfaces.last().primary_scanout == Some(
            output,
        )) {
            seq![surfaces.last().client]
        } else {
            Seq::empty()
        }
    }
}

/// Signal fifo barriers after a repaint; each client comes back once.
pub fn fifo_barriers_to_signal(surfaces: &Vec<SurfaceScanout>, output: u64) -> (r: Vec<u64>)
    ensures
        forall|c: u64| r@.contains(c) <==> spec_fifo_clients(surfaces@, output).contains(c),
        r@.no_duplicates(),
{
    let mut clients: Vec<u64> = Vec::new();
    let mut i: usize = 0;
    while i < surfaces.len()
        invariant
            i <= surfaces.len(),
            forall|c: u64|
                clients@.contains(c) <==> spec_fifo_clients(
                    surfaces@.subrange(0, i as int),
                    output,
                ).contains(c),
            clients@.no_duplicates(),
        decreases surfaces.len() - i,
    {
        broadcast use
            vstd::seq_lib::lemma_seq_contains_after_push,
            vstd::seq_lib::lemma_seq_concat_contains_all_elements,
            vstd::seq_lib::lemma_seq_empty_contains_nothing,
        ;

        let s = surfaces[i];
        let ghost clients_prev = clients@;
        let applies = s.has_fifo_barrier && (match s.primary_scanout {
            None => true,
            Some(o) => o == output,
        });
        if applies {
            if !contains_u64(&clients, s.client) {
                clients.push(s.client);
            }
        }
        proof {
            assert(surfaces@.subrange(0, i + 1 as int).drop_last() =~= surfaces@.subrange(
                0,
                i as int,
            ));
            assert(surfaces@.subrange(0, i + 1 as int).last() == surfaces@[i as int]);
            assert forall|c: u64|
                clients@.contains(c) <==> spec_fifo_clients(
                    surfaces@.subrange(0, i + 1 as int),
                    output,
                ).contains(c) by {
                if clients@ != clients_prev {
                    assert(clients@ == clients_prev.push(s.client));
                } else if applies {
                    assert(clients_prev.contains(s.client));
                }
            }
        }
        i = i + 1;
    }
    assert(surfaces@.subrange(0, surfaces@.len() as int) =~= surfaces@);
    clients
}

/// One window of the space as the dispatcher sees it.
#[derive(Clone, Copy, Debug, PartialEq, Eq, Structural)]
pub struct WindowOnOutput {
    pub window: u64,
    /// The window is shown on the output in question.
    pub on_output: bool,
}

/// The windows shown on an output, in stack order.
pub open spec fn spec_windows_on_output(windows: Seq<WindowOnOutput>) -> Seq<u64>
    decreases windows.len(),
{
    if windows.len() == 0 {
        Seq::empty()
    } else {
        spec_windows_on_output(windows.drop_last()) + if windows.last().on_output {
            seq![windows.last().window]
        } else {
            Seq::empty()
        }
    }
}

/// Build one output's presentation-feedback record: it aggregates exactly
/// the windows shown on that output.
pub fn take_presentation_feedback(windows: &Vec<WindowOnOutput>) -> (r: Vec<u64>)
    ensures
        r@ == spec_windows_on_output(windows@),
{
    windows_shown_on_output(windows)
}

/// The windows shown on an output: the walk that carries frame callbacks,
/// dmabuf feedback and the presentation-feedback record after a repaint.
pub fn windows_shown_on_output(windows: &Vec<WindowOnOutput>) -> (r: Vec<u64>)
    ensures
        r@ == spec_windows_on_output(windows@),
{
    let mut out: Vec<u64> = Vec::new();
    let mut i: usize = 0;
    while i < windows.len()
        invariant
            i <= windows.len(),
            out@ == spec_windows_on_output(windows@.subrange(0, i as int)),
        decreases windows.len() - i,
    {
        let w = windows[i];
        if w.on_output {
            out.push(w.window);
        }
        assert(windows@.subrange(0, i + 1 as int).drop_last() =~= windows@.subrange(0, i as int));
        assert(windows@.subrange(0, i + 1 as int).last() == windows@[i as int]);
        assert(out@ =~= spec_windows_on_output(windows@.subrange(0, i + 1 as int)));
        i = i + 1;
    }
    assert(windows@.subrange(0, windows@.len() as int) =~= windows@);
    out
}

/// What a post-repaint pass owes after a frame on one output.
pub struct PostRepaintPlan {
    /// Clients whose fifo barriers to signal, then flush their blockers.
    pub fifo_clients: Vec<u64>,
    /// Windows shown on the output: send their frame callbacks.
    pub frame_callback_windows: Vec<u64>,
    /// The same windows, when the surface has dmabuf feedback to offer.
    pub feedback_windows: Vec<u64>,
}

/// Everything a post-repaint pass dispatches for one output: fifo barrier
/// signals, frame callbacks for the windows shown on it, and — when the
/// surface carries dmabuf feedback — that feedback to the same windows.
pub fn post_repaint(
    surfaces: &Vec<SurfaceScanout>,
    windows: &Vec<WindowOnOutput>,
    output: u64,
    has_feedback: bool,
) -> (r: PostRepaintPlan)
    ensures
        forall|c: u64|
            r.fifo_clients@.contains(c) <==> spec_fifo_clients(surfaces@, output).contains(c),
        r.fifo_clients@.no_duplicates(),
        r.frame_callback_windows@ == spec_windows_on_output(windows@),
        r.feedback_windows@ == if has_feedback {
            spec_windows_on_output(windows@)
        } else {
            Seq::<u64>::empty()
        },
{
    let fifo_clients = fifo_barriers_to_signal(surfaces, output);
    let frame_callback_windows = windows_shown_on_output(windows);
    let feedback_windows = if has_feedback {
        windows_shown_on_output(windows)
    } else {
        Vec::new()
    };
    PostRepaintPlan { fifo_clients, frame_callback_windows, feedback_windows }
}

/// Update each surface's primary scanout output after a repaint: a surface
/// visible in the rendered frame is now primarily scanned out on this
/// output; the others keep their previous assignment.
pub fn update_primary_scanout_output(surfaces: Vec<SurfaceScanout>, output: u64) -> (r: Vec<
    SurfaceScanout,
>)
    ensures
        r@.len() == surfaces@.len(),
        forall|i: int|
            0 <= i < surfaces@.len() ==> {
                let s_old = #[trigger] surfaces@[i];
                let s_new = r@[i];
                &&& s_new.client == s_old.client
                &&& s_new.has_fifo_barrier == s_old.has_fifo_barrier
                &&& s_new.visible_in_frame == s_old.visible_in_frame
                &&& s_new.primary_scanout == if s_old.visible_in_frame {
                    Some(output)
                } else {
                    s_old.primary_scanout
                }
            },
{
    let mut out: Vec<SurfaceScanout> = Vec::new();
    let mut i: usize = 0;
    while i < surfaces.len()
        invariant
            i <= surfaces.len(),
            out@.len() == i,
            forall|m: int|
                0 <= m < i ==> {
                    let s_old = #[trigger] surfaces@[m];
                    let s_new = out@[m];
                    &&& s_new.client == s_old.client
                    &&& s_new.has_fifo_barrier == s_old.has_fifo_barrier
                    &&& s_new.visible_in_frame == s_old.visible_in_frame
                    &&& s_new.primary_scanout == if s_old.visible_in_frame {
                        Some(output)
                    } else {
                        s_old.primary_scanout
                    }
                },
        decreases surfaces.len() - i,
    {
        let s = surfaces[i];
        let primary_scanout = if s.visible_in_frame {
            Some(output)
        } else {
            s.primary_scanout
        };
        out.push(
            SurfaceScanout {
                client: s.client,
                primary_scanout,
                has_fifo_barrier: s.has_fifo_barrier,
                visible_in_frame: s.visible_in_frame,
            },
        );
        i = i + 1;
    }
    out
}

} // verus!
