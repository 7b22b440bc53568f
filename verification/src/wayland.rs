//! Decision logic of the Wayland capture setup: the count of active
//! displays, throttled error logging, error classification, the prompt shown
//! before capture is initialised, and the mouse bounds of the displays.
use crate::text::{
    lex_lt, seq_contains_seq, seq_starts_with, str_contains, str_eq, str_lt, str_starts_with,
    str_to_uppercase, uppercase,
};
use crate::decimal::{parse_unsigned_spec, parse_usize};
use vstd::prelude::*;

verus! {

/// One more active display; returns the new count.
pub fn increment_active_display_count(count: &mut usize) -> (r: usize)
    requires
        *old(count) < usize::MAX,
    ensures
        *final(count) == *old(count) + 1,
        r == *final(count),
{
    *count = *count + 1;
    *count
}

/// One active display less, never below zero; returns the new count.
pub fn decrement_active_display_count(count: &mut usize) -> (r: usize)
    ensures
        *final(count) == if *old(count) > 0 { *old(count) - 1 } else { 0 },
        r == *final(count),
{
    if *count > 0 {
        *count = *count - 1;
    }
    *count
}

/// Capture errors are logged once every 10000 errors, and not at all after
/// the first million. Returns whether this error is to be logged, and counts it.
pub fn try_log(log_count: &mut u32) -> (should_log: bool)
    ensures
        *old(log_count) >= 1_000_000 ==> !should_log && *final(log_count) == *old(log_count),
        *old(log_count) < 1_000_000 ==> should_log == (*old(log_count) % 10000 == 0)
            && *final(log_count) == *old(log_count) + 1,
{
    if *log_count >= 1_000_000 {
        return false;
    }
    let should_log = *log_count % 10000 == 0;
    *log_count = *log_count + 1;
    should_log
}

/// How a capture error is reported to the peer.
#[derive(Debug, Clone, Copy, PartialEq, Eq)]
pub enum ScrapErrorKind {
    /// PipeWire stopped replying: the server process exits.
    Fatal,
    /// Ubuntu older than 21: a newer Ubuntu is required.
    UbuntuHigherRequired,
    /// The error message is passed on unchanged.
    Unchanged,
    /// A portal, PipeWire or D-Bus failure: another version or X11 is required.
    OtherVersionOrX11Required,
    /// Any other failure: X11 is required.
    X11Required,
}

/// How a capture error is reported, given the distribution name and the name
/// "Ubuntu" both already in upper case.
pub open spec fn classify_scrap_error_spec(
    err: Seq<char>,
    distro_upper: Seq<char>,
    ubuntu_upper: Seq<char>,
    version_id: Seq<char>,
) -> (ScrapErrorKind, bool) {
    if seq_starts_with(err, "Did not receive a reply"@) {
        (ScrapErrorKind::Fatal, false)
    } else if distro_upper == ubuntu_upper {
        if lex_lt(version_id, "21"@) {
            (ScrapErrorKind::UbuntuHigherRequired, false)
        } else {
            (ScrapErrorKind::Unchanged, true)
        }
    } else if seq_contains_seq(err, "org.freedesktop.portal"@) || seq_contains_seq(err, "pipewire"@)
        || seq_contains_seq(err, "dbus"@) {
        (ScrapErrorKind::OtherVersionOrX11Required, true)
    } else {
        (ScrapErrorKind::X11Required, true)
    }
}

/// Classifies a capture error, given the upper-case distribution name
/// `distro_upper` and the upper-case `ubuntu_upper` of "Ubuntu". Returns the
/// kind of message to report and whether the error goes through throttled
/// logging.
pub fn classify_scrap_error(err: &str, distro_upper: &str, ubuntu_upper: &str, version_id: &str) -> (r: (
    ScrapErrorKind,
    bool,
))
    ensures
        r == classify_scrap_error_spec(err@, distro_upper@, ubuntu_upper@, version_id@),
{
    if str_starts_with(err, "Did not receive a reply") {
        return (ScrapErrorKind::Fatal, false);
    }
    if str_eq(distro_upper, ubuntu_upper) {
        if str_lt(version_id, "21") {
            (ScrapErrorKind::UbuntuHigherRequired, false)
        } else {
            (ScrapErrorKind::Unchanged, true)
        }
    } else if str_contains(err, "org.freedesktop.portal") || str_contains(err, "pipewire")
        || str_contains(err, "dbus") {
        (ScrapErrorKind::OtherVersionOrX11Required, true)
    } else {
        (ScrapErrorKind::X11Required, true)
    }
}

/// Classifies a capture error on a given distribution: the distribution is
/// Ubuntu when its name equals "Ubuntu" in upper case. Returns the kind of
/// message to report and whether the error goes through throttled logging.
pub fn map_err_scrap(err: &str, distro_name: &str, version_id: &str) -> (r: (ScrapErrorKind, bool))
    ensures
        r == classify_scrap_error_spec(err@, uppercase(distro_name@), uppercase("Ubuntu"@), version_id@),
{
    let name_upper = str_to_uppercase(distro_name);
    let ubuntu_upper = str_to_uppercase("Ubuntu");
    classify_scrap_error(err, name_upper.as_str(), ubuntu_upper.as_str(), version_id)
}

/// The extra error text for the current distribution: none is known.
pub fn common_get_error() -> (r: String)
    ensures
        r@ == Seq::<char>::empty(),
{
    String::new()
}

/// A message box shown to the peer.
pub struct MessageBox {
    pub msgtype: String,
    pub title: String,
    pub text: String,
    pub link: String,
}

/// The prompt asking the peer to select the screen to share: shown on
/// Wayland while no display is being captured yet, unless Mutter captures
/// the displays without a dialog.
pub fn is_inited(is_x11: bool, capture_empty: bool, mutter_available: bool) -> (r: Option<MessageBox>)
    ensures
        (r is Some) == (!is_x11 && capture_empty && !mutter_available),
        r matches Some(m) ==> {
            &&& m.msgtype@ == "nook-nocancel-hasclose"@
            &&& m.title@ == "Wayland"@
            &&& m.text@ == "Please Select the screen to be shared(Operate on the peer side)."@
            &&& m.link@ == ""@
        },
{
    if is_x11 || !capture_empty || mutter_available {
        return None;
    }
    Some(MessageBox {
        msgtype: "nook-nocancel-hasclose".to_owned(),
        title: "Wayland".to_owned(),
        text: "Please Select the screen to be shared(Operate on the peer side).".to_owned(),
        link: "".to_owned(),
    })
}

/// The message to show when the displays are checked for initialisation:
/// on Wayland, the prompt of [`is_inited`]; on X11, none.
pub fn is_inited_msg(is_x11: bool, capture_empty: bool, mutter_available: bool) -> (r: Option<MessageBox>)
    ensures
        (r is Some) == (!is_x11 && capture_empty && !mutter_available),
        r matches Some(m) ==> {
            &&& m.msgtype@ == "nook-nocancel-hasclose"@
            &&& m.title@ == "Wayland"@
            &&& m.text@ == "Please Select the screen to be shared(Operate on the peer side)."@
            &&& m.link@ == ""@
        },
{
    if is_x11 {
        return None;
    }
    is_inited(is_x11, capture_empty, mutter_available)
}

pub open spec fn min_i(a: int, b: int) -> int {
    if a <= b { a } else { b }
}

pub open spec fn max_i(a: int, b: int) -> int {
    if a >= b { a } else { b }
}

/// Whether `x + (w as i32)` stays within `i32` for every rectangle.
pub open spec fn rects_fit(rects: Seq<((i32, i32), usize, usize)>) -> bool {
    forall|i: int| 0 <= i < rects.len() ==> {
        let ((x, y), w, h) = #[trigger] rects[i];
        &&& i32::MIN <= x + (w as i32) <= i32::MAX
        &&& i32::MIN <= y + (h as i32) <= i32::MAX
    }
}

/// Smallest left and top edges and largest right and bottom edges of the
/// rectangles `((x, y), w, h)`, starting from the empty bounds.
pub open spec fn rect_bounds(rects: Seq<((i32, i32), usize, usize)>) -> (int, int, int, int)
    decreases rects.len(),
{
    if rects.len() == 0 {
        (i32::MAX as int, i32::MIN as int, i32::MAX as int, i32::MIN as int)
    } else {
        let (minx, maxx, miny, maxy) = rect_bounds(rects.drop_last());
        let ((x, y), w, h) = rects.last();
        (
            min_i(minx, x as int),
            max_i(maxx, x + (w as i32)),
            min_i(miny, y as int),
            max_i(maxy, y + (h as i32)),
        )
    }
}

proof fn lemma_rect_bounds_range(rects: Seq<((i32, i32), usize, usize)>)
    requires
        rects_fit(rects),
    ensures
        ({
            let (a, b, c, d) = rect_bounds(rects);
            &&& i32::MIN <= a <= i32::MAX
            &&& i32::MIN <= b <= i32::MAX
            &&& i32::MIN <= c <= i32::MAX
            &&& i32::MIN <= d <= i32::MAX
        }),
    decreases rects.len(),
{
    if rects.len() > 0 {
        let t = rects.drop_last();
        assert forall|i: int| 0 <= i < t.len() implies t[i] == rects[i] by {}
        lemma_rect_bounds_range(t);
        let ((x, y), w, h) = rects.last();
        assert(rects.last() == rects[rects.len() - 1]);
    }
}

/// Mouse bounds `(minx, maxx, miny, maxy)` covering all display rectangles,
/// when they enclose a non-empty area.
pub fn mouse_bounds(rects: &Vec<((i32, i32), usize, usize)>) -> (r: Option<(i32, i32, i32, i32)>)
    requires
        rects_fit(rects@),
    ensures
        ({
            let (minx, maxx, miny, maxy) = rect_bounds(rects@);
            if minx < maxx && miny < maxy {
                r == Some((minx as i32, maxx as i32, miny as i32, maxy as i32))
            } else {
                r is None
            }
        }),
{
    let mut minx: i32 = i32::MAX;
    let mut miny: i32 = i32::MAX;
    let mut maxx: i32 = i32::MIN;
    let mut maxy: i32 = i32::MIN;
    let mut i: usize = 0;
    while i < rects.len()
        invariant
            i <= rects@.len(),
            rects_fit(rects@),
            rect_bounds(rects@.take(i as int)) == (minx as int, maxx as int, miny as int, maxy as int),
        decreases rects@.len() - i,
    {
        let ((rx, ry), rw, rh) = rects[i];
        proof {
            assert(rects@.take(i + 1).drop_last() =~= rects@.take(i as int));
            assert(rects@.take(i + 1).last() == rects@[i as int]);
        }
        let right: i32 = rx + (#[verifier::truncate] (rw as i32));
        let bottom: i32 = ry + (#[verifier::truncate] (rh as i32));
        if rx < minx {
            minx = rx;
        }
        if ry < miny {
            miny = ry;
        }
        if right > maxx {
            maxx = right;
        }
        if bottom > maxy {
            maxy = bottom;
        }
        i = i + 1;
    }
    proof {
        assert(rects@.take(rects@.len() as int) =~= rects@);
    }
    if minx < maxx && miny < maxy {
        Some((minx, maxx, miny, maxy))
    } else {
        None
    }
}

/// The display count cached with the screen-sharing restore token: the
/// stored value read as a number, 0 when it is not one.
pub fn cached_display_count(stored: &str) -> (r: usize)
    ensures
        r == match parse_unsigned_spec(stored@, usize::MAX as nat) {
            Some(v) => v as usize,
            None => 0usize,
        },
{
    match parse_usize(stored) {
        Some(v) => v,
        None => 0,
    }
}

/// Whether the screen-sharing restore token must be dropped so that the
/// portal asks again: a count was cached and the display count changed since.
pub fn restore_token_outdated(cached_count: usize, system_count: usize) -> (r: bool)
    ensures
        r == (cached_count > 0 && system_count != cached_count),
{
    cached_count > 0 && system_count != cached_count
}

/// What checking the capture initialisation does.
#[derive(Debug, Clone, Copy, PartialEq, Eq)]
pub enum CaptureInitStep {
    /// Nothing: on X11, or displays are already being captured.
    Nothing,
    /// Nothing, as PipeWire is already initialised: a second set of
    /// capturers would duplicate it.
    AlreadyInitialized,
    /// Create a capturer for each display.
    Initialize,
}

/// Whether the capture is to be initialised: on Wayland, while no display
/// is captured yet and PipeWire is not initialised.
pub fn capture_init_step(is_x11: bool, capture_empty: bool, pipewire_initialized: bool) -> (r: CaptureInitStep)
    ensures
        r == if is_x11 || !capture_empty {
            CaptureInitStep::Nothing
        } else if pipewire_initialized {
            CaptureInitStep::AlreadyInitialized
        } else {
            CaptureInitStep::Initialize
        },
{
    if is_x11 || !capture_empty {
        CaptureInitStep::Nothing
    } else if pipewire_initialized {
        CaptureInitStep::AlreadyInitialized
    } else {
        CaptureInitStep::Initialize
    }
}

/// The capture could not be initialised: no capturer was created.
#[derive(Debug, Clone, Copy, PartialEq, Eq)]
pub enum CaptureInitError {
    NoCapturer,
}

/// The displays whose capturer was created, in order, given for each display
/// whether its capturer was created.
pub open spec fn created_indices(created: Seq<bool>) -> Seq<usize>
    decreases created.len(),
{
    if created.len() == 0 {
        Seq::empty()
    } else {
        let prev = created_indices(created.drop_last());
        if created.last() {
            prev.push((created.len() - 1) as usize)
        } else {
            prev
        }
    }
}

proof fn lemma_created_indices(created: Seq<bool>)
    requires
        created.len() <= usize::MAX,
    ensures
        created_indices(created).len() == 0 <==> forall|i: int| 0 <= i < created.len() ==> !created[i],
        forall|k: int| 0 <= k < created_indices(created).len() ==> {
            let i = #[trigger] created_indices(created)[k] as int;
            0 <= i < created.len() && created[i]
        },
    decreases created.len(),
{
    if created.len() > 0 {
        let t = created.drop_last();
        lemma_created_indices(t);
        assert forall|i: int| 0 <= i < t.len() implies t[i] == created[i] by {}
        let ci = created_indices(created);
        let pt = created_indices(t);
        assert forall|k: int| 0 <= k < ci.len() implies {
            let i = #[trigger] ci[k] as int;
            0 <= i < created.len() && created[i]
        } by {
            if k == pt.len() {
                assert(created.last());
                assert(ci[k] == (created.len() - 1) as usize);
            }
            if k < pt.len() {
                assert(ci[k] == pt[k]);
                let i = pt[k] as int;
                assert(0 <= i < t.len() && t[i]);
            }
        }
        if !created.last() && created_indices(t).len() > 0 {
            let k = choose|i: int| 0 <= i < t.len() && t[i];
            assert(created[k]);
        }
    }
}

/// Finishes initialising the capture, given for each display, in order,
/// whether its capturer was created. The displays with a capturer are
/// captured (their indices are returned, in order); when there is none the
/// initialisation fails, and only when it succeeds is PipeWire marked as
/// initialised.
pub fn finish_capture_init(created: &Vec<bool>, pipewire_initialized: &mut bool) -> (r: Result<Vec<usize>, CaptureInitError>)
    ensures
        (r is Ok) <==> exists|i: int| 0 <= i < created@.len() && created@[i],
        r matches Ok(v) ==> v@ == created_indices(created@),
        r is Ok ==> *final(pipewire_initialized),
        r is Err ==> *final(pipewire_initialized) == *old(pipewire_initialized),
{
    let mut out: Vec<usize> = Vec::new();
    let mut i: usize = 0;
    while i < created.len()
        invariant
            i <= created@.len(),
            out@ == created_indices(created@.take(i as int)),
        decreases created@.len() - i,
    {
        proof {
            assert(created@.take(i + 1).drop_last() =~= created@.take(i as int));
        }
        if created[i] {
            out.push(i);
        }
        i = i + 1;
    }
    proof {
        assert(created@.take(created@.len() as int) =~= created@);
        lemma_created_indices(created@);
    }
    if out.len() == 0 {
        return Err(CaptureInitError::NoCapturer);
    }
    *pipewire_initialized = true;
    Ok(out)
}

} // verus!
