use zaroxi_interface_desktop::render_schedule::{FrameScheduler, InvalidationFlags};

const MS: u64 = 1_000_000;

#[test]
fn merge_coalesces_reasons() {
    let mut flags = InvalidationFlags::scroll();
    flags.merge(InvalidationFlags::input());
    flags.merge(InvalidationFlags::syntax());
    assert!(flags.input && flags.scroll && flags.syntax);
    assert!(!flags.resize && !flags.content);
    assert_eq!(flags.summary(), "input+scroll+syntax");
}

#[test]
fn budget_not_elapsed_within_interval() {
    let mut sched = FrameScheduler::with_target_interval(8 * MS);
    let t0 = 5_000 * MS;
    assert!(sched.budget_elapsed(t0), "first frame always allowed");
    sched.on_frame_presented(t0);
    assert!(!sched.budget_elapsed(t0 + 2 * MS));
    assert!(sched.budget_elapsed(t0 + 8 * MS));
}

#[test]
fn deadline_is_last_present_plus_interval() {
    let mut sched = FrameScheduler::with_target_interval(8 * MS);
    let t0 = 5_000 * MS;
    sched.on_frame_presented(t0);
    let now = t0 + 3 * MS;
    assert_eq!(sched.next_deadline(now), t0 + 8 * MS);
    let later = t0 + 20 * MS;
    assert_eq!(sched.next_deadline(later), later);
}

#[test]
fn outstanding_redraw_roundtrip() {
    let mut sched = FrameScheduler::with_target_interval(8 * MS);
    assert!(!sched.redraw_outstanding());
    sched.mark_redraw_requested();
    assert!(sched.redraw_outstanding());
    sched.on_redraw_received();
    assert!(!sched.redraw_outstanding());
}

#[test]
fn empty_flags_summarize_as_none_and_presenting_clears_reasons() {
    let mut sched = FrameScheduler::with_target_interval(8 * MS);
    assert_eq!(sched.pending_summary(), "none");
    sched.note_reason(InvalidationFlags::content());
    sched.note_reason(InvalidationFlags::style());
    assert_eq!(sched.pending_summary(), "content+style");
    sched.on_frame_presented(1_000 * MS);
    assert_eq!(sched.pending_summary(), "none");
}

#[test]
fn deadline_without_a_presented_frame_is_now() {
    let sched = FrameScheduler::with_target_interval(8 * MS);
    assert_eq!(sched.next_deadline(77), 77);
}

#[test]
fn all_reasons_summarize_in_order() {
    let mut f = InvalidationFlags::style();
    for g in [
        InvalidationFlags::cursor_selection(),
        InvalidationFlags::syntax(),
        InvalidationFlags::content(),
        InvalidationFlags::resize(),
        InvalidationFlags::scroll(),
        InvalidationFlags::input(),
    ] {
        f.merge(g);
    }
    assert_eq!(f.summary(), "input+scroll+resize+content+syntax+cursor_sel+style");
}

#[test]
fn a_burst_of_reasons_coalesces_into_one_pending_frame() {
    let mut sched = FrameScheduler::with_target_interval(8 * MS);
    sched.note_reason(InvalidationFlags::scroll());
    sched.note_reason(InvalidationFlags::input());
    sched.note_reason(InvalidationFlags::scroll());
    let p = sched.pending();
    assert!(p.scroll && p.input && !p.content && !p.resize && !p.syntax && !p.style);
    sched.on_frame_presented(100 * MS);
    assert_eq!(sched.pending(), InvalidationFlags::default());
    sched.note_reason(InvalidationFlags::syntax());
    assert_eq!(sched.pending(), InvalidationFlags::syntax());
}

#[test]
fn redraw_paints_only_a_dirty_ui_and_rearms_for_deferred_shaping() {
    let mut sched = FrameScheduler::with_target_interval(8 * MS);
    sched.mark_redraw_requested();
    assert!(!sched.begin_redraw(false));
    assert!(!sched.redraw_outstanding());
    sched.note_reason(InvalidationFlags::input());
    assert!(sched.begin_redraw(true));
    assert!(!sched.finish_frame(10 * MS, 0));
    assert!(!sched.redraw_outstanding());
    assert_eq!(sched.pending(), InvalidationFlags::default());
    assert!(sched.finish_frame(20 * MS, 3));
    assert!(sched.redraw_outstanding());
    assert_eq!(sched.next_deadline(21 * MS), 28 * MS);
}

#[test]
fn a_failed_frame_stays_dirty_and_rearms_a_redraw() {
    let mut sched = FrameScheduler::with_target_interval(8 * MS);
    sched.note_reason(InvalidationFlags::input());
    assert!(sched.begin_redraw(true));
    assert!(sched.frame_failed());
    assert!(sched.redraw_outstanding());
    assert_eq!(sched.pending(), InvalidationFlags::input());
}
