//! Decisions of the virtual display drivers: the custom resolution slot, the
//! mode a new display is created with, display index bookkeeping, and the
//! order of DRM topology changes when devices are torn down.
pub use crate::edid::MAX_SUPPORTED_RESOLUTION;
use crate::decimal::{decimal_spec, u32_to_decimal};
use crate::text::{lowercase, seq_contains_seq, str_contains, str_eq, str_to_lowercase};
use crate::seq_util::{
    lemma_seq_without_absent, lemma_seq_without_facts, lemma_without_no_duplicates, seq_without,
    vec_contains_i32, vec_without_i32,
};
use crate::tokens::views;
use vstd::prelude::*;
use vstd::string::StringSliceAdditionalSpecFns;
use vstd::utf8::is_char_boundary;

verus! {

/// A display mode: size in pixels and refresh rate in Hz.
#[derive(Debug, Copy, Clone)]
pub struct MonitorMode {
    pub width: u32,
    pub height: u32,
    pub sync: u32,
}

/// The resolution requested by the client for the next virtual displays.
pub struct CustomResolution {
    value: Option<(u32, u32)>,
}

impl View for CustomResolution {
    type V = Option<(u32, u32)>;

    closed spec fn view(&self) -> Option<(u32, u32)> {
        self.value
    }
}

impl CustomResolution {
    /// No custom resolution.
    pub fn new() -> (c: Self)
        ensures
            c@ is None,
    {
        CustomResolution { value: None }
    }
}

/// Sets the custom resolution; the last one set wins.
pub fn set_custom_resolution(slot: &mut CustomResolution, w: u32, h: u32)
    ensures
        final(slot)@ == Some((w, h)),
{
    slot.value = Some((w, h));
}

/// The custom resolution, kept in place so that several displays created
/// one after the other all get it.
pub fn take_custom_resolution(slot: &CustomResolution) -> (r: Option<(u32, u32)>)
    ensures
        r == slot@,
{
    slot.value
}

/// Forgets the custom resolution.
pub fn clear_custom_resolution(slot: &mut CustomResolution)
    ensures
        final(slot)@ is None,
{
    slot.value = None;
}

/// Maximum number of EVDI virtual displays.
pub const MAX_VIRTUAL_DISPLAYS: usize = 4;

/// Settling delay in ms after a DRM topology change, so that the display
/// server finishes processing one hotplug event before the next one.
pub const DRM_HOTPLUG_SETTLE_MS: u64 = 3000;

pub open spec fn clamp_side(v: u32) -> u32 {
    if v > MAX_SUPPORTED_RESOLUTION {
        MAX_SUPPORTED_RESOLUTION
    } else if v < 1 {
        1
    } else {
        v
    }
}

/// The `(width, height, refresh)` a new EVDI display is created with: the
/// first mode requested, its sides within `1..=8192` and its refresh at least
/// 1, or 1920 x 1080 @ 60 when no mode is requested.
pub fn resolve_mode(modes: &Vec<MonitorMode>) -> (r: (u32, u32, u32))
    ensures
        modes@.len() == 0 ==> r == (1920u32, 1080u32, 60u32),
        modes@.len() > 0 ==> r == (
            clamp_side(modes@[0].width),
            clamp_side(modes@[0].height),
            if modes@[0].sync < 1 { 1u32 } else { modes@[0].sync },
        ),
{
    if modes.len() == 0 {
        return (1920, 1080, 60);
    }
    let m = modes[0];
    let w = if m.width > MAX_SUPPORTED_RESOLUTION { MAX_SUPPORTED_RESOLUTION } else if m.width < 1 { 1 } else { m.width };
    let h = if m.height > MAX_SUPPORTED_RESOLUTION { MAX_SUPPORTED_RESOLUTION } else if m.height < 1 { 1 } else { m.height };
    let s = if m.sync < 1 { 1 } else { m.sync };
    (w, h, s)
}

/// What plugging in an EVDI display at a given index amounts to.
#[derive(Debug, Clone, Copy, PartialEq, Eq)]
pub enum PlugInCheck {
    /// The maximum number of virtual displays is reached: an error.
    LimitReached,
    /// A display already exists at this index: nothing to do.
    AlreadyPresent,
    /// Create the display.
    Create,
}

/// Whether a display may be created at an index, given how many displays
/// exist and whether the index is taken.
pub fn check_plug_in(peer_count: usize, index_taken: bool) -> (r: PlugInCheck)
    ensures
        r == if peer_count >= MAX_VIRTUAL_DISPLAYS {
            PlugInCheck::LimitReached
        } else if index_taken {
            PlugInCheck::AlreadyPresent
        } else {
            PlugInCheck::Create
        },
{
    if peer_count >= MAX_VIRTUAL_DISPLAYS {
        PlugInCheck::LimitReached
    } else if index_taken {
        PlugInCheck::AlreadyPresent
    } else {
        PlugInCheck::Create
    }
}

/// Whether `v` holds `x`.
pub fn vec_contains_u32(v: &Vec<u32>, x: u32) -> (r: bool)
    ensures
        r == v@.contains(x),
{
    let mut i: usize = 0;
    while i < v.len()
        invariant
            i <= v.len(),
            forall|j: int| 0 <= j < i ==> v@[j] != x,
        decreases v.len() - i,
    {
        if v[i] == x {
            assert(v@[i as int] == x);
            return true;
        }
        i = i + 1;
    }
    false
}

/// The first index from `start` on that no display uses.
pub fn next_peer_index(start: u32, used: &Vec<u32>) -> (r: u32)
    requires
        exists|k: u32| k >= start && !used@.contains(k),
    ensures
        r >= start,
        !used@.contains(r),
        forall|j: u32| start <= j < r ==> used@.contains(j),
{
    let ghost k = choose|k: u32| k >= start && !used@.contains(k) && forall|j: u32| start <= j < k ==> used@.contains(j);
    proof {
        lemma_first_free(start, used@);
    }
    let mut next = start;
    while vec_contains_u32(used, next)
        invariant
            start <= next <= k,
            !used@.contains(k),
            forall|j: u32| start <= j < next ==> used@.contains(j),
        decreases k - next,
    {
        next = next + 1;
    }
    next
}

proof fn lemma_first_free(start: u32, used: Seq<u32>)
    requires
        exists|k: u32| k >= start && !used.contains(k),
    ensures
        exists|k: u32| k >= start && !used.contains(k) && forall|j: u32| start <= j < k ==> used.contains(j),
{
    let k0 = choose|k: u32| k >= start && !used.contains(k);
    lemma_first_free_below(start, used, k0);
}

proof fn lemma_first_free_below(start: u32, used: Seq<u32>, k: u32)
    requires
        k >= start,
        !used.contains(k),
    ensures
        exists|m: u32| m >= start && !used.contains(m) && forall|j: u32| start <= j < m ==> used.contains(j),
    decreases k - start,
{
    if forall|j: u32| start <= j < k ==> used.contains(j) {
    } else {
        let j = choose|j: u32| start <= j < k && !used.contains(j);
        lemma_first_free_below(start, used, j);
    }
}

/// The devices removed by a request to plug out display `index`: every peer
/// display and the headless one for a negative index, else the display at
/// that index when there is one.
pub fn plug_out_targets(index: i32, peers: &Vec<u32>, has_headless: bool) -> (r: (Vec<u32>, bool))
    ensures
        index < 0 ==> r.0@ == peers@ && r.1 == has_headless,
        index >= 0 ==> !r.1 && (if peers@.contains(index as u32) {
            r.0@ == seq![index as u32]
        } else {
            r.0@.len() == 0
        }),
{
    if index < 0 {
        let mut all: Vec<u32> = Vec::new();
        let mut i: usize = 0;
        while i < peers.len()
            invariant
                i <= peers@.len(),
                all@ == peers@.take(i as int),
            decreases peers@.len() - i,
        {
            all.push(peers[i]);
            i = i + 1;
            proof {
                assert(all@ =~= peers@.take(i as int));
            }
        }
        proof {
            assert(peers@.take(peers@.len() as int) =~= peers@);
        }
        return (all, has_headless);
    }
    let idx = index as u32;
    if vec_contains_u32(peers, idx) {
        let v = vec![idx];
        proof {
            assert(v@ =~= seq![index as u32]);
        }
        (v, false)
    } else {
        (Vec::new(), false)
    }
}

/// The requested indices that name an existing display, each once, in the
/// order requested.
pub open spec fn present_once(indices: Seq<u32>, peers: Seq<u32>) -> Seq<u32>
    decreases indices.len(),
{
    if indices.len() == 0 {
        Seq::empty()
    } else {
        let prev = present_once(indices.drop_last(), peers);
        let x = indices.last();
        if peers.contains(x) && !prev.contains(x) {
            prev.push(x)
        } else {
            prev
        }
    }
}

/// The displays removed by a request to plug out several indices: each
/// requested index that names an existing display, once.
pub fn plug_out_indices_targets(indices: &Vec<u32>, peers: &Vec<u32>) -> (r: Vec<u32>)
    ensures
        r@ == present_once(indices@, peers@),
{
    let mut out: Vec<u32> = Vec::new();
    let mut i: usize = 0;
    while i < indices.len()
        invariant
            i <= indices@.len(),
            out@ == present_once(indices@.take(i as int), peers@),
        decreases indices@.len() - i,
    {
        proof {
            assert(indices@.take(i + 1).drop_last() =~= indices@.take(i as int));
            assert(indices@.take(i + 1).last() == indices@[i as int]);
        }
        let x = indices[i];
        if vec_contains_u32(peers, x) && !vec_contains_u32(&out, x) {
            out.push(x);
        }
        i = i + 1;
    }
    proof {
        assert(indices@.take(indices@.len() as int) =~= indices@);
    }
    out
}

/// One step of a DRM topology change sequence.
#[derive(Debug, Clone, Copy, PartialEq, Eq)]
pub enum DrmStep {
    /// Disconnect the i-th device.
    Disconnect(usize),
    /// Close the i-th device.
    Close(usize),
    /// Wait this many milliseconds.
    Settle(u64),
}

/// Tearing down `n` devices: each is disconnected, given time to settle,
/// then closed, with a settle delay between two devices and none after the last.
pub open spec fn teardown_spec(n: nat) -> Seq<DrmStep>
    decreases n,
{
    if n == 0 {
        Seq::empty()
    } else {
        let i = (n - 1) as usize;
        let prev = teardown_spec((n - 1) as nat);
        let gap = if n > 1 { seq![DrmStep::Settle(DRM_HOTPLUG_SETTLE_MS)] } else { Seq::empty() };
        prev + gap + seq![DrmStep::Disconnect(i), DrmStep::Settle(DRM_HOTPLUG_SETTLE_MS), DrmStep::Close(i)]
    }
}

/// Removing `n` orphaned devices: each is closed only, with a settle delay
/// between two devices and none after the last.
pub open spec fn orphan_cleanup_spec(n: nat) -> Seq<DrmStep>
    decreases n,
{
    if n == 0 {
        Seq::empty()
    } else {
        let i = (n - 1) as usize;
        let prev = orphan_cleanup_spec((n - 1) as nat);
        let gap = if n > 1 { seq![DrmStep::Settle(DRM_HOTPLUG_SETTLE_MS)] } else { Seq::empty() };
        prev + gap + seq![DrmStep::Close(i)]
    }
}

/// The steps of tearing down `n` devices, in order.
pub fn teardown_plan(n: usize) -> (steps: Vec<DrmStep>)
    requires
        n <= usize::MAX / 4,
    ensures
        steps@ == teardown_spec(n as nat),
{
    let mut steps: Vec<DrmStep> = Vec::new();
    let mut i: usize = 0;
    while i < n
        invariant
            i <= n,
            steps@ == teardown_spec(i as nat),
        decreases n - i,
    {
        if i > 0 {
            steps.push(DrmStep::Settle(DRM_HOTPLUG_SETTLE_MS));
        }
        steps.push(DrmStep::Disconnect(i));
        steps.push(DrmStep::Settle(DRM_HOTPLUG_SETTLE_MS));
        steps.push(DrmStep::Close(i));
        proof {
            let ghost prev = teardown_spec(i as nat);
            assert(teardown_spec((i + 1) as nat) == prev + (if i + 1 > 1 { seq![DrmStep::Settle(DRM_HOTPLUG_SETTLE_MS)] } else { Seq::<DrmStep>::empty() }) + seq![DrmStep::Disconnect(i), DrmStep::Settle(DRM_HOTPLUG_SETTLE_MS), DrmStep::Close(i)]);
            assert(steps@ =~= teardown_spec((i + 1) as nat));
        }
        i = i + 1;
    }
    steps
}

/// The steps of removing `n` orphaned devices, in order.
pub fn orphan_cleanup_plan(n: usize) -> (steps: Vec<DrmStep>)
    requires
        n <= usize::MAX / 2,
    ensures
        steps@ == orphan_cleanup_spec(n as nat),
{
    let mut steps: Vec<DrmStep> = Vec::new();
    let mut i: usize = 0;
    while i < n
        invariant
            i <= n,
            steps@ == orphan_cleanup_spec(i as nat),
        decreases n - i,
    {
        if i > 0 {
            steps.push(DrmStep::Settle(DRM_HOTPLUG_SETTLE_MS));
        }
        steps.push(DrmStep::Close(i));
        proof {
            let ghost prev = orphan_cleanup_spec(i as nat);
            assert(orphan_cleanup_spec((i + 1) as nat) == prev + (if i + 1 > 1 { seq![DrmStep::Settle(DRM_HOTPLUG_SETTLE_MS)] } else { Seq::<DrmStep>::empty() }) + seq![DrmStep::Close(i)]);
            assert(steps@ =~= orphan_cleanup_spec((i + 1) as nat));
        }
        i = i + 1;
    }
    steps
}

/// Whether a step changes the DRM topology.
pub open spec fn is_topology_change(s: DrmStep) -> bool {
    s is Disconnect || s is Close
}

/// In a teardown, every topology change is followed by a settle delay
/// unless it is the very last step, device `i` is disconnected at step
/// `4i` and closed at step `4i + 2`, and nothing else is done.
pub proof fn lemma_teardown_spaced(n: nat)
    ensures
        n == 0 ==> teardown_spec(n).len() == 0,
        n > 0 ==> teardown_spec(n).len() == 4 * n - 1,
        forall|k: int| 0 <= k < teardown_spec(n).len() - 1 && is_topology_change(#[trigger] teardown_spec(n)[k])
            ==> teardown_spec(n)[k + 1] == DrmStep::Settle(DRM_HOTPLUG_SETTLE_MS),
        forall|i: int| 0 <= i < n ==> teardown_spec(n)[4 * i] == DrmStep::Disconnect(i as usize)
            && #[trigger] teardown_spec(n)[4 * i + 2] == DrmStep::Close(i as usize),
    decreases n,
{
    if n > 0 {
        lemma_teardown_spaced((n - 1) as nat);
        let prev = teardown_spec((n - 1) as nat);
        let s = teardown_spec(n);
        if n > 1 {
            assert(prev.len() == 4 * (n - 1) - 1);
            assert forall|k: int| 0 <= k < prev.len() implies s[k] == prev[k] by {}
            assert forall|i: int| 0 <= i < n implies s[4 * i] == DrmStep::Disconnect(i as usize)
                && #[trigger] s[4 * i + 2] == DrmStep::Close(i as usize) by {
                if i < n - 1 {
                    assert(prev[4 * i] == DrmStep::Disconnect(i as usize));
                    assert(prev[4 * i + 2] == DrmStep::Close(i as usize));
                }
            }
        }
    }
}

/// In an orphan cleanup, every close is followed by a settle delay unless it
/// is the last step, and device `i` is closed at step `2i`.
pub proof fn lemma_orphan_cleanup_spaced(n: nat)
    ensures
        n == 0 ==> orphan_cleanup_spec(n).len() == 0,
        n > 0 ==> orphan_cleanup_spec(n).len() == 2 * n - 1,
        forall|k: int| 0 <= k < orphan_cleanup_spec(n).len() - 1 && is_topology_change(#[trigger] orphan_cleanup_spec(n)[k])
            ==> orphan_cleanup_spec(n)[k + 1] == DrmStep::Settle(DRM_HOTPLUG_SETTLE_MS),
        forall|i: int| 0 <= i < n ==> #[trigger] orphan_cleanup_spec(n)[2 * i] == DrmStep::Close(i as usize),
        forall|k: int| 0 <= k < orphan_cleanup_spec(n).len() ==> !(#[trigger] orphan_cleanup_spec(n)[k] is Disconnect),
    decreases n,
{
    if n > 0 {
        lemma_orphan_cleanup_spaced((n - 1) as nat);
        let prev = orphan_cleanup_spec((n - 1) as nat);
        let s = orphan_cleanup_spec(n);
        if n > 1 {
            assert forall|k: int| 0 <= k < prev.len() implies s[k] == prev[k] by {}
            assert forall|i: int| 0 <= i < n implies #[trigger] s[2 * i] == DrmStep::Close(i as usize) by {
                if i < n - 1 {
                    assert(prev[2 * i] == DrmStep::Close(i as usize));
                }
            }
        }
    }
}

/// Whether the lowercase form `lower` of a connector name marks one of our
/// EVDI virtual displays: it mentions "evdi" or "virtual".
pub fn is_virtual_display_lower(lower: &str) -> (r: bool)
    ensures
        r == (seq_contains_seq(lower@, "evdi"@) || seq_contains_seq(lower@, "virtual"@)),
{
    str_contains(lower, "evdi") || str_contains(lower, "virtual")
}

/// Whether a connector name is one of our EVDI virtual displays: its
/// lowercase form mentions "evdi" or "virtual".
pub fn is_virtual_display(name: &str) -> (r: bool)
    ensures
        r == (seq_contains_seq(lowercase(name@), "evdi"@) || seq_contains_seq(lowercase(name@), "virtual"@)),
{
    let lower = str_to_lowercase(name);
    is_virtual_display_lower(lower.as_str())
}

/// Whether the uevent file of a DRM card names the EVDI driver.
pub fn uevent_is_evdi(content: &str) -> (r: bool)
    ensures
        r == seq_contains_seq(content@, "DRIVER=evdi"@),
{
    str_contains(content, "DRIVER=evdi")
}

/// What the EVDI implementation tells the client about its virtual displays.
pub struct EvdiAdditions {
    /// Number of peer virtual displays, when there is at least one.
    pub virtual_displays: Option<usize>,
    /// Whether a headless display exists.
    pub headless: bool,
}

/// The platform additions of the EVDI implementation: none when virtual
/// displays are unsupported; else the implementation name goes with the
/// count of peer displays (when not zero) and the headless flag (when set).
pub fn evdi_platform_additions(supported: bool, peer_count: usize, has_headless: bool) -> (r: Option<EvdiAdditions>)
    ensures
        !supported ==> r is None,
        supported ==> (r matches Some(a) && a.virtual_displays == (if peer_count > 0 { Some(peer_count) } else { None })
            && a.headless == has_headless),
{
    if !supported {
        return None;
    }
    Some(EvdiAdditions {
        virtual_displays: if peer_count > 0 { Some(peer_count) } else { None },
        headless: has_headless,
    })
}

/// A value of the platform additions sent to the client.
pub enum AdditionValue {
    Text(String),
    Count(usize),
    Flag(bool),
}

/// An [`AdditionValue`] with its text as characters.
pub enum AdditionValueView {
    Text(Seq<char>),
    Count(usize),
    Flag(bool),
}

/// The key and value of one platform addition, as characters.
pub open spec fn addition_entry_view(e: (String, AdditionValue)) -> (Seq<char>, AdditionValueView) {
    (e.0@, match e.1 {
        AdditionValue::Text(s) => AdditionValueView::Text(s@),
        AdditionValue::Count(n) => AdditionValueView::Count(n),
        AdditionValue::Flag(b) => AdditionValueView::Flag(b),
    })
}

/// The platform additions of the EVDI implementation as key/value pairs:
/// none when virtual displays are unsupported; else `idd_impl` is `evdi`,
/// then `evdi_virtual_displays` gives the count of peer displays when it is
/// not zero, and `evdi_headless` is `true` when the headless display exists.
pub open spec fn evdi_addition_entries_spec(supported: bool, peer_count: usize, has_headless: bool) -> Seq<(Seq<char>, AdditionValueView)> {
    if !supported {
        Seq::empty()
    } else {
        let base = seq![("idd_impl"@, AdditionValueView::Text("evdi"@))];
        let counted = if peer_count > 0 {
            base.push(("evdi_virtual_displays"@, AdditionValueView::Count(peer_count)))
        } else {
            base
        };
        if has_headless {
            counted.push(("evdi_headless"@, AdditionValueView::Flag(true)))
        } else {
            counted
        }
    }
}

/// The platform additions of the EVDI implementation as key/value pairs, in
/// the order of [`evdi_addition_entries_spec`].
pub fn evdi_addition_entries(supported: bool, peer_count: usize, has_headless: bool) -> (r: Vec<(String, AdditionValue)>)
    ensures
        r@.map_values(|e: (String, AdditionValue)| addition_entry_view(e)) == evdi_addition_entries_spec(supported, peer_count, has_headless),
{
    let mut r: Vec<(String, AdditionValue)> = Vec::new();
    let a = match evdi_platform_additions(supported, peer_count, has_headless) {
        Some(a) => a,
        None => {
            proof {
                assert(r@.map_values(|e: (String, AdditionValue)| addition_entry_view(e)) =~= Seq::<(Seq<char>, AdditionValueView)>::empty());
            }
            return r;
        },
    };
    r.push(("idd_impl".to_owned(), AdditionValue::Text("evdi".to_owned())));
    if let Some(n) = a.virtual_displays {
        r.push(("evdi_virtual_displays".to_owned(), AdditionValue::Count(n)));
    }
    if a.headless {
        r.push(("evdi_headless".to_owned(), AdditionValue::Flag(true)));
    }
    proof {
        assert(r@.map_values(|e: (String, AdditionValue)| addition_entry_view(e)) =~= evdi_addition_entries_spec(supported, peer_count, has_headless));
    }
    r
}

/// The resolution of a new macOS virtual display: the custom resolution
/// when set, else the first requested mode, else 1920 x 1080.
pub fn macos_mode_resolution(custom: Option<(u32, u32)>, modes: &Vec<MonitorMode>) -> (r: (u32, u32))
    ensures
        custom matches Some(c) ==> r == c,
        custom is None && modes@.len() > 0 ==> r == (modes@[0].width, modes@[0].height),
        custom is None && modes@.len() == 0 ==> r == (1920u32, 1080u32),
{
    match custom {
        Some(c) => c,
        None => {
            if modes.len() > 0 {
                (modes[0].width, modes[0].height)
            } else {
                (1920, 1080)
            }
        },
    }
}

/// First index of the IDD driver available to peer displays.
pub const VIRTUAL_DISPLAY_START_FOR_PEER: u32 = 1;

/// One past the last index of the IDD driver.
pub const VIRTUAL_DISPLAY_MAX_COUNT: u32 = 5;

/// The first IDD index for a peer display that is not in use, if any.
pub fn idd_peer_index(used: &Vec<u32>) -> (r: Option<u32>)
    ensures
        r matches Some(i) ==> VIRTUAL_DISPLAY_START_FOR_PEER <= i < VIRTUAL_DISPLAY_MAX_COUNT && !used@.contains(i)
            && forall|j: u32| VIRTUAL_DISPLAY_START_FOR_PEER <= j < i ==> used@.contains(j),
        r is None ==> forall|j: u32| VIRTUAL_DISPLAY_START_FOR_PEER <= j < VIRTUAL_DISPLAY_MAX_COUNT ==> used@.contains(j),
{
    let mut idx: u32 = VIRTUAL_DISPLAY_START_FOR_PEER;
    while idx < VIRTUAL_DISPLAY_MAX_COUNT
        invariant
            VIRTUAL_DISPLAY_START_FOR_PEER <= idx <= VIRTUAL_DISPLAY_MAX_COUNT,
            forall|j: u32| VIRTUAL_DISPLAY_START_FOR_PEER <= j < idx ==> used@.contains(j),
        decreases VIRTUAL_DISPLAY_MAX_COUNT - idx,
    {
        if !vec_contains_u32(used, idx) {
            return Some(idx);
        }
        idx = idx + 1;
    }
    None
}

/// The IDD indices to plug out for a request: every virtual display for -1,
/// else the requested index.
pub fn idd_plug_out_indices(index: i32, all: &Vec<u32>) -> (r: Vec<u32>)
    ensures
        index == -1 ==> r@ == all@,
        index != -1 ==> r@ == seq![index as u32],
{
    if index == -1 {
        let mut out: Vec<u32> = Vec::new();
        let mut i: usize = 0;
        while i < all.len()
            invariant
                i <= all@.len(),
                out@ == all@.take(i as int),
            decreases all@.len() - i,
        {
            out.push(all[i]);
            i = i + 1;
            proof {
                assert(out@ =~= all@.take(i as int));
            }
        }
        proof {
            assert(all@.take(all@.len() as int) =~= all@);
        }
        out
    } else {
        let v = vec![#[verifier::truncate] (index as u32)];
        proof {
            assert(v@ =~= seq![index as u32]);
        }
        v
    }
}

/// The modes a new IDD display is created with: the requested ones, or
/// 1920 x 1080 @ 60 when none is requested.
pub fn idd_modes_or_default(modes: Vec<MonitorMode>) -> (r: Vec<MonitorMode>)
    ensures
        modes@.len() > 0 ==> r@ == modes@,
        modes@.len() == 0 ==> r@ == seq![MonitorMode { width: 1920, height: 1080, sync: 60 }],
{
    let mut modes = modes;
    if modes.len() == 0 {
        modes.push(MonitorMode { width: 1920, height: 1080, sync: 60 });
        proof {
            assert(modes@ =~= seq![MonitorMode { width: 1920, height: 1080, sync: 60 }]);
        }
    }
    modes
}

/// Most virtual displays the Amyuni driver offers.
pub const AMYUNI_MAX_COUNT: usize = 4;

/// Why a request to plug out Amyuni virtual displays is refused.
#[derive(Debug, Clone, Copy, PartialEq, Eq)]
pub enum AmyuniPlugOutError {
    /// The virtual displays were plugged in by another process.
    ManagedByOtherProcesses,
    /// There is a single display and none of ours.
    NoVirtualDisplays,
    /// The single display is ours but may only go when forced.
    OnlyDisplay,
}

/// How many Amyuni virtual displays a plug-out request removes.
///
/// `plug_in_count` is how many this process plugged in, `amyuni_count` how
/// many Amyuni displays exist and `all_count` how many displays exist.
pub open spec fn amyuni_plug_out_spec(
    plug_out_all: bool,
    plug_in_count: nat,
    amyuni_count: nat,
    all_count: nat,
    force_all: bool,
    force_one: bool,
) -> Result<nat, AmyuniPlugOutError> {
    if !plug_out_all && plug_in_count == 0 && amyuni_count > 0 && !force_one {
        Err(AmyuniPlugOutError::ManagedByOtherProcesses)
    } else {
        let ours: nat = if !plug_out_all && plug_in_count == 0 && amyuni_count > 0 { 1 } else { plug_in_count };
        if all_count == 0 {
            Ok(0)
        } else if all_count == 1 {
            if ours == 0 {
                Err(AmyuniPlugOutError::NoVirtualDisplays)
            } else if force_all {
                Ok(1)
            } else {
                Err(AmyuniPlugOutError::OnlyDisplay)
            }
        } else {
            let n: nat = if all_count == ours {
                if force_all { all_count } else { (all_count - 1) as nat }
            } else {
                ours
            };
            Ok(if n != 0 && !plug_out_all { 1 } else { n })
        }
    }
}

/// A plug-out request for a single display removes at most one display,
/// and, when this process plugged in no more displays than exist, a request
/// for all removes at most every display.
pub proof fn lemma_amyuni_plug_out_bounded(
    plug_out_all: bool,
    plug_in_count: nat,
    amyuni_count: nat,
    all_count: nat,
    force_all: bool,
    force_one: bool,
)
    requires
        plug_in_count <= all_count,
    ensures
        amyuni_plug_out_spec(plug_out_all, plug_in_count, amyuni_count, all_count, force_all, force_one) matches Ok(n)
            ==> n <= all_count && (!plug_out_all ==> n <= 1),
{
}

/// How many Amyuni virtual displays a plug-out request removes, or why it
/// is refused. A request for one display removes at most one.
pub fn amyuni_plug_out_count(
    plug_out_all: bool,
    plug_in_count: usize,
    amyuni_count: usize,
    all_count: usize,
    force_all: bool,
    force_one: bool,
) -> (r: Result<usize, AmyuniPlugOutError>)
    ensures
        match amyuni_plug_out_spec(plug_out_all, plug_in_count as nat, amyuni_count as nat, all_count as nat, force_all, force_one) {
            Ok(n) => r == Ok::<usize, AmyuniPlugOutError>(n as usize),
            Err(e) => r == Err::<usize, AmyuniPlugOutError>(e),
        },
{
    let mut plug_in_count = plug_in_count;
    if !plug_out_all {
        if plug_in_count == 0 && amyuni_count > 0 {
            if force_one {
                plug_in_count = 1;
            } else {
                return Err(AmyuniPlugOutError::ManagedByOtherProcesses);
            }
        }
    }
    let mut to_plug_out_count: usize = if all_count == 0 {
        return Ok(0);
    } else if all_count == 1 {
        if plug_in_count == 0 {
            return Err(AmyuniPlugOutError::NoVirtualDisplays);
        } else if force_all {
            1
        } else {
            return Err(AmyuniPlugOutError::OnlyDisplay);
        }
    } else if all_count == plug_in_count {
        if force_all {
            all_count
        } else {
            all_count - 1
        }
    } else {
        plug_in_count
    };
    if to_plug_out_count != 0 && !plug_out_all {
        to_plug_out_count = 1;
    }
    Ok(to_plug_out_count)
}

/// Whether the Amyuni driver can take one more virtual display.
pub fn amyuni_can_plug_in(monitor_count: usize) -> (r: bool)
    ensures
        r == (monitor_count != AMYUNI_MAX_COUNT),
{
    monitor_count != AMYUNI_MAX_COUNT
}

/// Whether a headless display is requested too soon after the previous
/// one: less than 3 s since it, when there was one.
pub fn headless_too_frequent(since_last_ms: Option<u64>) -> (r: bool)
    ensures
        r == (since_last_ms matches Some(ms) && ms < 3000),
{
    match since_last_ms {
        Some(ms) => ms < 3000,
        None => false,
    }
}

/// Highest index of the resolution entries the Amyuni driver reads.
pub const AMYUNI_MAX_ENTRY_INDEX: usize = 9;

/// The registry value of a resolution: `<width>,<height>`.
pub open spec fn amyuni_resolution_spec(w: u32, h: u32) -> Seq<char> {
    decimal_spec(w as nat) + seq![','] + decimal_spec(h as nat)
}

/// The registry value of a resolution: `<width>,<height>`.
pub fn amyuni_resolution_value(w: u32, h: u32) -> (r: String)
    ensures
        r@ == amyuni_resolution_spec(w, h),
{
    let mut s = u32_to_decimal(w);
    s.append(",");
    let hs = u32_to_decimal(h);
    s.append(hs.as_str());
    proof {
        reveal_strlit(",");
        assert(s@ =~= amyuni_resolution_spec(w, h));
    }
    s
}

/// Where a resolution goes among the Amyuni registry entries.
#[derive(Debug, Clone, Copy, PartialEq, Eq)]
pub enum AmyuniSlot {
    /// The resolution is already the entry at this index.
    Present(usize),
    /// Write it at this free index.
    Add(usize),
    /// All entries are taken: overwrite the last one.
    Overwrite(usize),
}

/// Where `resolution` goes, given the entries `existing` read from index 0
/// on up to the first missing one (of which at most 10 count): at its first
/// index if present, else after the last one, else over the last one when
/// all 10 are taken.
pub fn amyuni_slot(existing: &Vec<String>, resolution: &str) -> (r: AmyuniSlot)
    ensures
        ({
            let entries = if existing@.len() > 10 { views(existing@).take(10) } else { views(existing@) };
            &&& r matches AmyuniSlot::Present(i) ==> i < entries.len() && entries[i as int] == resolution@
                && forall|j: int| 0 <= j < i ==> entries[j] != resolution@
            &&& r matches AmyuniSlot::Add(i) ==> i == entries.len() && entries.len() < 10
                && forall|j: int| 0 <= j < entries.len() ==> entries[j] != resolution@
            &&& r matches AmyuniSlot::Overwrite(i) ==> i == 9 && entries.len() == 10
                && forall|j: int| 0 <= j < entries.len() ==> entries[j] != resolution@
        }),
{
    let n: usize = if existing.len() > 10 { 10 } else { existing.len() };
    let ghost entries = if existing@.len() > 10 { views(existing@).take(10) } else { views(existing@) };
    let mut i: usize = 0;
    while i < n
        invariant
            i <= n,
            n <= existing@.len(),
            n == entries.len(),
            n <= 10,
            entries == (if existing@.len() > 10 { views(existing@).take(10) } else { views(existing@) }),
            forall|j: int| 0 <= j < i ==> entries[j] != resolution@,
        decreases n - i,
    {
        proof {
            assert(entries[i as int] == existing@[i as int]@);
        }
        if str_eq(existing[i].as_str(), resolution) {
            return AmyuniSlot::Present(i);
        }
        i = i + 1;
    }
    if n < 10 {
        AmyuniSlot::Add(n)
    } else {
        AmyuniSlot::Overwrite(9)
    }
}

/// How a newly plugged-in display is identified among the device names.
#[derive(Debug, Clone, PartialEq, Eq)]
pub enum NewDeviceName {
    /// Exactly one device name is new: the new display's.
    One(String),
    /// Several device names are new: the new display cannot be told apart.
    Several,
    /// No device name is new yet.
    NotYet,
}

/// The distinct names of `after` missing from `before`, in first-occurrence order.
pub open spec fn new_names_spec(after: Seq<Seq<char>>, before: Seq<Seq<char>>) -> Seq<Seq<char>>
    decreases after.len(),
{
    if after.len() == 0 {
        Seq::empty()
    } else {
        let r = new_names_spec(after.drop_last(), before);
        let x = after.last();
        if before.contains(x) || r.contains(x) {
            r
        } else {
            r.push(x)
        }
    }
}

/// Whether `v` holds a string with the characters `x`.
fn contains_name(v: &Vec<String>, x: &str) -> (r: bool)
    ensures
        r == views(v@).contains(x@),
{
    let mut i: usize = 0;
    while i < v.len()
        invariant
            i <= v@.len(),
            forall|j: int| 0 <= j < i ==> views(v@)[j] != x@,
        decreases v@.len() - i,
    {
        proof {
            assert(views(v@)[i as int] == v@[i as int]@);
        }
        if str_eq(v[i].as_str(), x) {
            assert(views(v@)[i as int] == x@);
            return true;
        }
        i = i + 1;
    }
    false
}

/// Which device name belongs to a display just plugged in, from the names
/// before and after plugging it in.
pub fn new_device_name(before: &Vec<String>, after: &Vec<String>) -> (r: NewDeviceName)
    ensures
        ({
            let d = new_names_spec(views(after@), views(before@));
            &&& d.len() == 0 ==> r == NewDeviceName::NotYet
            &&& d.len() == 1 ==> (r matches NewDeviceName::One(s) && s@ == d[0])
            &&& d.len() > 1 ==> r == NewDeviceName::Several
        }),
{
    let mut found: Vec<String> = Vec::new();
    let mut i: usize = 0;
    proof {
        assert(views(after@).take(0) =~= Seq::<Seq<char>>::empty());
        assert(views(found@) =~= Seq::<Seq<char>>::empty());
    }
    while i < after.len()
        invariant
            i <= after@.len(),
            views(found@) == new_names_spec(views(after@).take(i as int), views(before@)),
        decreases after@.len() - i,
    {
        let x = after[i].as_str();
        proof {
            assert(views(after@).take(i + 1).drop_last() =~= views(after@).take(i as int));
            assert(views(after@).take(i + 1).last() == after@[i as int]@);
        }
        if !contains_name(before, x) && !contains_name(&found, x) {
            let ghost pre = found@;
            found.push(after[i].clone());
            proof {
                assert(views(found@) =~= views(pre).push(x@));
            }
        }
        i = i + 1;
    }
    proof {
        assert(views(after@).take(after@.len() as int) =~= views(after@));
    }
    if found.len() == 1 {
        proof {
            assert(views(found@)[0] == found@[0]@);
        }
        NewDeviceName::One(found[0].clone())
    } else if found.len() > 1 {
        NewDeviceName::Several
    } else {
        NewDeviceName::NotYet
    }
}

/// The resolution used to place the displays of a peer request: the first
/// mode of the last requested set, as requested, or 1920 x 1080.
pub fn peer_positioning_resolution(modes: &Vec<Vec<MonitorMode>>) -> (r: (u32, u32))
    ensures
        modes@.len() > 0 && modes@.last()@.len() > 0 ==> r == (modes@.last()@[0].width, modes@.last()@[0].height),
        !(modes@.len() > 0 && modes@.last()@.len() > 0) ==> r == (1920u32, 1080u32),
{
    let n = modes.len();
    if n > 0 {
        let last = &modes[n - 1];
        if last.len() > 0 {
            return (last[0].width, last[0].height);
        }
    }
    (1920, 1080)
}

/// The frame size the consumer of peer display `idx` is started with: the
/// first mode of the `idx`-th requested set, each side within `1..=8192`;
/// a side with no such mode is 1920 wide or 1080 high.
pub fn peer_consumer_resolution(modes: &Vec<Vec<MonitorMode>>, idx: u32) -> (r: (u32, u32))
    ensures
        (idx as int) < modes@.len() && modes@[idx as int]@.len() > 0 ==> r == (
            clamp_side(modes@[idx as int]@[0].width),
            clamp_side(modes@[idx as int]@[0].height),
        ),
        !((idx as int) < modes@.len() && modes@[idx as int]@.len() > 0) ==> r == (1920u32, 1080u32),
{
    let i = idx as usize;
    if i < modes.len() && modes[i].len() > 0 {
        let m = modes[i][0];
        let w = if m.width > MAX_SUPPORTED_RESOLUTION { MAX_SUPPORTED_RESOLUTION } else if m.width < 1 { 1 } else { m.width };
        let h = if m.height > MAX_SUPPORTED_RESOLUTION { MAX_SUPPORTED_RESOLUTION } else if m.height < 1 { 1 } else { m.height };
        (w, h)
    } else {
        (1920, 1080)
    }
}

/// Whether to wait for the display server after creating the device of the
/// `mode_i`-th of `total` requested sets: after a success, unless it is the last.
pub fn settle_after_device(created: bool, mode_i: usize, total: usize) -> (r: bool)
    ensures
        r == (created && mode_i + 1 < total),
{
    created && mode_i < total && mode_i + 1 < total
}

/// The framebuffer the EVDI consumer registers for a display: width and
/// height within 8192, a stride of 4 bytes per pixel (XRGB8888), and its
/// size in bytes.
pub fn consumer_buffer_layout(width: u32, height: u32) -> (r: (i32, i32, i32, usize))
    ensures
        r.0 == (if width > MAX_SUPPORTED_RESOLUTION { MAX_SUPPORTED_RESOLUTION } else { width }),
        r.1 == (if height > MAX_SUPPORTED_RESOLUTION { MAX_SUPPORTED_RESOLUTION } else { height }),
        r.2 == 4 * r.0,
        r.3 == r.2 * r.1,
{
    let w: u32 = if width > MAX_SUPPORTED_RESOLUTION { MAX_SUPPORTED_RESOLUTION } else { width };
    let h: u32 = if height > MAX_SUPPORTED_RESOLUTION { MAX_SUPPORTED_RESOLUTION } else { height };
    let stride: i32 = (w as i32) * 4;
    assert((stride as int) * (h as int) <= 32768 * 8192) by (nonlinear_arith)
        requires
            0 <= stride <= 32768,
            0 <= h <= 8192,
    ;
    let size: usize = (stride as usize) * (h as usize);
    (w as i32, h as i32, stride, size)
}

/// The area limit handed to the EVDI connection: width times height,
/// saturating at `u32::MAX`.
pub fn area_limit(width: u32, height: u32) -> (r: u32)
    ensures
        r == (if width * height > u32::MAX { u32::MAX as int } else { width * height }),
{
    assert((width as int) * (height as int) <= 0xFFFF_FFFF * 0xFFFF_FFFF) by (nonlinear_arith)
        requires
            0 <= width <= 0xFFFF_FFFF,
            0 <= height <= 0xFFFF_FFFF,
    ;
    let p: u64 = (width as u64) * (height as u64);
    if p > u32::MAX as u64 {
        u32::MAX
    } else {
        p as u32
    }
}

/// The cards present now that were not before, in the order listed.
pub fn new_card_ids(known: &Vec<i32>, current: &Vec<i32>) -> (r: Vec<i32>)
    ensures
        r@ == current@.filter(|id: i32| !known@.contains(id)),
{
    let mut out: Vec<i32> = Vec::new();
    let mut i: usize = 0;
    proof {
        assert(current@.take(0) =~= Seq::<i32>::empty());
        reveal_with_fuel(Seq::filter, 1);
    }
    while i < current.len()
        invariant
            i <= current@.len(),
            out@ == current@.take(i as int).filter(|id: i32| !known@.contains(id)),
        decreases current@.len() - i,
    {
        proof {
            assert(current@.take(i + 1).drop_last() =~= current@.take(i as int));
            assert(current@.take(i + 1).last() == current@[i as int]);
            reveal_with_fuel(Seq::filter, 1);
        }
        let id = current[i];
        let mut seen = false;
        let mut k: usize = 0;
        while k < known.len()
            invariant
                k <= known@.len(),
                seen == known@.take(k as int).contains(id),
            decreases known@.len() - k,
        {
            let ghost t = known@.take(k as int);
            let ghost t2 = known@.take(k + 1);
            proof {
                assert(t2 =~= t.push(known@[k as int]));
            }
            if known[k] == id {
                seen = true;
                proof {
                    assert(t2[k as int] == id);
                }
            } else {
                proof {
                    if t2.contains(id) {
                        let j = choose|j: int| 0 <= j < t2.len() && t2[j] == id;
                        assert(j < k);
                        assert(t[j] == id);
                    }
                    if t.contains(id) {
                        let j = choose|j: int| 0 <= j < t.len() && t[j] == id;
                        assert(t2[j] == id);
                    }
                }
            }
            k = k + 1;
        }
        proof {
            assert(known@.take(known@.len() as int) =~= known@);
        }
        if !seen {
            out.push(id);
        }
        i = i + 1;
    }
    proof {
        assert(current@.take(current@.len() as int) =~= current@);
    }
    out
}

/// Milliseconds after adding a device that a new device node is looked for.
pub const DISCOVERY_TIMEOUT_MS: u64 = 5000;

/// Milliseconds after adding a device that access rights are set on the
/// device nodes, in case the udev rule has not applied yet.
pub const ACL_FALLBACK_MS: u64 = 1500;

/// What the device discovery loop does after `elapsed_ms`: whether to go
/// on looking, and whether to set the access rights now.
pub fn discovery_step(elapsed_ms: u64, acl_done: bool) -> (r: (bool, bool))
    ensures
        r.0 == (elapsed_ms < DISCOVERY_TIMEOUT_MS),
        r.1 == (elapsed_ms < DISCOVERY_TIMEOUT_MS && !acl_done && elapsed_ms >= ACL_FALLBACK_MS),
{
    let go_on = elapsed_ms < DISCOVERY_TIMEOUT_MS;
    (go_on, go_on && !acl_done && elapsed_ms >= ACL_FALLBACK_MS)
}

/// The virtual displays created with CoreGraphics, by index.
pub struct CgRegistry {
    next_index: i32,
    displays: Vec<i32>,
    headless: Option<i32>,
}

/// Abstract state of a [`CgRegistry`]: the next index to hand out, the
/// indices of the live displays in creation order, and the headless one.
pub struct CgState {
    pub next_index: i32,
    pub displays: Seq<i32>,
    pub headless: Option<i32>,
}

impl CgState {
    /// Indices are handed out once: the live ones are distinct and below the
    /// next one, and the headless display is a live one.
    pub open spec fn wf(self) -> bool {
        &&& self.displays.no_duplicates()
        &&& forall|i: int| 0 <= i < self.displays.len() ==> 0 <= #[trigger] self.displays[i] < self.next_index
        &&& self.next_index >= 0
        &&& (self.headless matches Some(h) ==> self.displays.contains(h))
    }
}

impl View for CgRegistry {
    type V = CgState;

    closed spec fn view(&self) -> CgState {
        CgState { next_index: self.next_index, displays: self.displays@, headless: self.headless }
    }
}

/// Removing the requested indices one by one, in order: the displays left
/// and the indices removed (each a live one at the time of its request).
pub open spec fn cg_remove_indices(displays: Seq<i32>, indices: Seq<u32>) -> (Seq<i32>, Seq<i32>)
    decreases indices.len(),
{
    if indices.len() == 0 {
        (displays, Seq::empty())
    } else {
        let (left, removed) = cg_remove_indices(displays, indices.drop_last());
        let idx = #[verifier::truncate] (indices.last() as i32);
        if left.contains(idx) {
            (seq_without(left, idx), removed.push(idx))
        } else {
            (left, removed)
        }
    }
}

/// A request to remove a display index that is not live.
#[derive(Debug, Clone, Copy, PartialEq, Eq)]
pub struct CgIndexNotFound {
    pub index: i32,
}

impl CgRegistry {
    /// No display; indices start at 0.
    pub fn new() -> (r: Self)
        ensures
            r@ == (CgState { next_index: 0, displays: Seq::empty(), headless: None }),
            r@.wf(),
    {
        CgRegistry { next_index: 0, displays: Vec::new(), headless: None }
    }

    /// Registers a new display (the headless one when `headless`) and
    /// returns its index: the next index, which then moves on by one.
    pub fn plug_in(&mut self, headless: bool) -> (index: i32)
        requires
            old(self)@.next_index < i32::MAX,
        ensures
            index == old(self)@.next_index,
            final(self)@.next_index == old(self)@.next_index + 1,
            final(self)@.displays == old(self)@.displays.push(index),
            final(self)@.headless == (if headless { Some(index) } else { old(self)@.headless }),
            old(self)@.wf() ==> final(self)@.wf(),
    {
        let index = self.next_index;
        self.displays.push(index);
        if headless {
            self.headless = Some(index);
        }
        self.next_index = self.next_index + 1;
        proof {
            let o = old(self)@;
            let n = self@;
            if o.wf() {
                assert(!o.displays.contains(index)) by {
                    if o.displays.contains(index) {
                        let j = choose|j: int| 0 <= j < o.displays.len() && o.displays[j] == index;
                        assert(o.displays[j] < o.next_index);
                    }
                }
                assert forall|a: int, b: int| 0 <= a < n.displays.len() && 0 <= b < n.displays.len() && a != b implies n.displays[a] != n.displays[b] by {
                    if a == o.displays.len() {
                        assert(o.displays.contains(n.displays[b]));
                    } else if b == o.displays.len() {
                        assert(o.displays.contains(n.displays[a]));
                    }
                }
                assert(n.displays[n.displays.len() - 1] == index);
                if let Some(h) = o.headless {
                    if !headless {
                        let j = choose|j: int| 0 <= j < o.displays.len() && o.displays[j] == h;
                        assert(n.displays[j] == h);
                    }
                }
            }
        }
        index
    }

    /// Removes displays: all of them (and the headless mark) for a negative
    /// index, else the display at `index`, which must be live. Returns the
    /// removed indices.
    pub fn plug_out(&mut self, index: i32) -> (r: Result<Vec<i32>, CgIndexNotFound>)
        ensures
            index < 0 ==> (r matches Ok(v) && v@ == old(self)@.displays && final(self)@ == (CgState {
                next_index: old(self)@.next_index,
                displays: Seq::empty(),
                headless: None,
            })),
            index >= 0 && old(self)@.displays.contains(index) ==> (r matches Ok(v) && v@ == seq![index]
                && final(self)@ == (CgState {
                next_index: old(self)@.next_index,
                displays: seq_without(old(self)@.displays, index),
                headless: if old(self)@.headless == Some(index) { None } else { old(self)@.headless },
            })),
            index >= 0 && !old(self)@.displays.contains(index) ==> r == Err::<Vec<i32>, CgIndexNotFound>(
                CgIndexNotFound { index },
            ) && final(self)@ == old(self)@,
            old(self)@.wf() ==> final(self)@.wf(),
    {
        if index < 0 {
            let mut all: Vec<i32> = Vec::new();
            std::mem::swap(&mut all, &mut self.displays);
            self.headless = None;
            return Ok(all);
        }
        if !vec_contains_i32(&self.displays, index) {
            return Err(CgIndexNotFound { index });
        }
        self.displays = vec_without_i32(&self.displays, index);
        if self.headless == Some(index) {
            self.headless = None;
        }
        proof {
            lemma_without_no_duplicates(old(self)@.displays, index);
            lemma_seq_without_facts(old(self)@.displays, index);
            let o = old(self)@;
            let n = self@;
            if o.wf() {
                assert forall|i: int| 0 <= i < n.displays.len() implies 0 <= #[trigger] n.displays[i] < n.next_index by {
                    assert(n.displays.contains(n.displays[i]));
                    assert(o.displays.contains(n.displays[i]));
                    let j = choose|j: int| 0 <= j < o.displays.len() && o.displays[j] == n.displays[i];
                    assert(o.displays[j] < o.next_index);
                }
            }
        }
        let v = vec![index];
        proof {
            assert(v@ =~= seq![index]);
        }
        Ok(v)
    }

    /// Removes the live displays among `indices` (each taken as an `i32`
    /// index, wrapping), and returns the removed ones in request order.
    pub fn plug_out_indices(&mut self, indices: &Vec<u32>) -> (r: Vec<i32>)
        ensures
            old(self)@.wf() ==> final(self)@.wf(),
            (final(self)@.displays, r@) == cg_remove_indices(old(self)@.displays, indices@),
            final(self)@.next_index == old(self)@.next_index,
            final(self)@.headless == (match old(self)@.headless {
                Some(h) => if cg_remove_indices(old(self)@.displays, indices@).1.contains(h) {
                    None
                } else {
                    Some(h)
                },
                None => None,
            }),
    {
        let mut removed: Vec<i32> = Vec::new();
        let mut k: usize = 0;
        proof {
            assert(indices@.take(0) =~= Seq::<u32>::empty());
        }
        while k < indices.len()
            invariant
                k <= indices@.len(),
                old(self)@.wf() ==> self@.wf(),
                self@.next_index == old(self)@.next_index,
                (self@.displays, removed@) == cg_remove_indices(old(self)@.displays, indices@.take(k as int)),
                self@.headless == (match old(self)@.headless {
                    Some(h) => if removed@.contains(h) {
                        None
                    } else {
                        Some(h)
                    },
                    None => None,
                }),
                forall|x: i32| #[trigger] self@.displays.contains(x) ==> old(self)@.displays.contains(x),
            decreases indices@.len() - k,
        {
            let idx: i32 = #[verifier::truncate] (indices[k] as i32);
            let ghost pre = self@;
            let ghost pre_removed = removed@;
            proof {
                assert(indices@.take(k + 1).drop_last() =~= indices@.take(k as int));
                assert(indices@.take(k + 1).last() == indices@[k as int]);
                assert(idx == #[verifier::truncate] (indices@[k as int] as i32));
            }
            if vec_contains_i32(&self.displays, idx) {
                self.displays = vec_without_i32(&self.displays, idx);
                if self.headless == Some(idx) {
                    self.headless = None;
                }
                removed.push(idx);
                proof {
                    lemma_without_no_duplicates(pre.displays, idx);
                    lemma_seq_without_facts(pre.displays, idx);
                    let n = self@;
                    assert(n.displays == seq_without(pre.displays, idx));
                    assert forall|x: i32| #[trigger] n.displays.contains(x) implies old(self)@.displays.contains(x) by {
                        assert(pre.displays.contains(x));
                    }
                    if pre.wf() {
                        assert forall|i: int| 0 <= i < n.displays.len() implies 0 <= #[trigger] n.displays[i] < n.next_index by {
                            assert(n.displays.contains(n.displays[i]));
                            assert(pre.displays.contains(n.displays[i]));
                            let j = choose|j: int| 0 <= j < pre.displays.len() && pre.displays[j] == n.displays[i];
                            assert(pre.displays[j] < pre.next_index);
                        }
                    }
                    assert forall|h: i32| removed@.contains(h) <==> (pre_removed.contains(h) || h == idx) by {
                        if removed@.contains(h) {
                            let j = choose|j: int| 0 <= j < removed@.len() && removed@[j] == h;
                            if j < pre_removed.len() {
                                assert(pre_removed[j] == h);
                            }
                        }
                        if pre_removed.contains(h) {
                            let j = choose|j: int| 0 <= j < pre_removed.len() && pre_removed[j] == h;
                            assert(removed@[j] == h);
                        }
                        if h == idx {
                            assert(removed@[removed@.len() - 1] == h);
                        }
                    }
                    if let Some(h) = old(self)@.headless {
                        if !pre_removed.contains(h) && h != idx {
                            assert(pre.headless == Some(h));
                        }
                    }
                }
            }
            k = k + 1;
        }
        proof {
            assert(indices@.take(indices@.len() as int) =~= indices@);
        }
        removed
    }

    /// Removes every display and starts the indices again at 0; returns the
    /// removed indices.
    pub fn reset_all(&mut self) -> (r: Vec<i32>)
        ensures
            r@ == old(self)@.displays,
            final(self)@ == (CgState { next_index: 0, displays: Seq::empty(), headless: None }),
            final(self)@.wf(),
    {
        let mut all: Vec<i32> = Vec::new();
        std::mem::swap(&mut all, &mut self.displays);
        self.headless = None;
        self.next_index = 0;
        all
    }

    /// How many displays are live.
    pub fn count(&self) -> (r: usize)
        ensures
            r == self@.displays.len(),
    {
        self.displays.len()
    }

    /// Whether the headless display is live.
    pub fn has_headless(&self) -> (r: bool)
        ensures
            r == (self@.headless is Some),
    {
        self.headless.is_some()
    }
}

/// A display registered and then plugged out by its index is gone again,
/// and the others stay.
pub proof fn lemma_cg_plug_out_undoes_plug_in(pre: CgState, index: i32, mid: CgState, post: CgState)
    requires
        pre.wf(),
        index == pre.next_index,
        mid.displays == pre.displays.push(index),
        post.displays == seq_without(mid.displays, index),
    ensures
        post.displays == pre.displays,
{
    reveal_with_fuel(Seq::filter, 1);
    assert(mid.displays.drop_last() =~= pre.displays);
    assert(!pre.displays.contains(index)) by {
        if pre.displays.contains(index) {
            let j = choose|j: int| 0 <= j < pre.displays.len() && pre.displays[j] == index;
            assert(pre.displays[j] < pre.next_index);
        }
    }
    lemma_seq_without_absent(pre.displays, index);
}

/// Whether the plug-in check of [`check_plug_in`] gives for `peer_count`
/// displays and a taken or free index.
pub open spec fn check_plug_in_spec(peer_count: nat, index_taken: bool) -> PlugInCheck {
    if peer_count >= MAX_VIRTUAL_DISPLAYS {
        PlugInCheck::LimitReached
    } else if index_taken {
        PlugInCheck::AlreadyPresent
    } else {
        PlugInCheck::Create
    }
}

/// The requested indices that name a display of `peers`, each once, in
/// request order.
pub open spec fn present_in(indices: Seq<u32>, peers: Set<u32>) -> Seq<u32>
    decreases indices.len(),
{
    if indices.len() == 0 {
        Seq::empty()
    } else {
        let prev = present_in(indices.drop_last(), peers);
        let x = indices.last();
        if peers.contains(x) && !prev.contains(x) {
            prev.push(x)
        } else {
            prev
        }
    }
}

proof fn lemma_present_in(indices: Seq<u32>, peers: Seq<u32>)
    ensures
        present_in(indices, peers.to_set()) == present_once(indices, peers),
        present_in(indices, peers.to_set()).no_duplicates(),
        present_in(indices, peers.to_set()).to_set() =~= peers.to_set().intersect(indices.to_set()),
    decreases indices.len(),
{
    if indices.len() > 0 {
        let t = indices.drop_last();
        let x = indices.last();
        lemma_present_in(t, peers);
        let prev = present_in(t, peers.to_set());
        assert(indices =~= t.push(x));
        assert(indices.to_set() =~= t.to_set().insert(x));
        if peers.contains(x) && !prev.contains(x) {
            lemma_push_unique(prev, x);
            prev.lemma_push_to_set_commute(x);
        }
    }
}

proof fn lemma_push_unique<A>(s: Seq<A>, x: A)
    requires
        s.no_duplicates(),
        !s.contains(x),
    ensures
        s.push(x).no_duplicates(),
{
    assert forall|i: int, j: int| 0 <= i < s.push(x).len() && 0 <= j < s.push(x).len() && i != j
        implies s.push(x)[i] != s.push(x)[j] by {
        if i == s.len() {
            assert(s.contains(s[j]));
        } else if j == s.len() {
            assert(s.contains(s[i]));
        }
    }
}

/// A copy of `v` without `x`.
fn vec_without_u32(v: &Vec<u32>, x: u32) -> (r: Vec<u32>)
    requires
        v@.no_duplicates(),
    ensures
        r@.no_duplicates(),
        r@.to_set() == v@.to_set().remove(x),
{
    let mut out: Vec<u32> = Vec::new();
    let mut i: usize = 0;
    while i < v.len()
        invariant
            i <= v.len(),
            v@.no_duplicates(),
            out@.no_duplicates(),
            forall|y: u32| #[trigger] out@.contains(y) <==> (v@.take(i as int).contains(y) && y != x),
        decreases v.len() - i,
    {
        let y = v[i];
        proof {
            broadcast use vstd::seq_lib::lemma_seq_contains_after_push;
            assert(v@.take(i + 1) =~= v@.take(i as int).push(y));
            assert(!v@.take(i as int).contains(y)) by {
                if v@.take(i as int).contains(y) {
                    let k = choose|k: int| 0 <= k < i && v@.take(i as int)[k] == y;
                    assert(v@[k] == v@[i as int]);
                }
            }
        }
        if y != x {
            proof {
                lemma_push_unique(out@, y);
            }
            out.push(y);
            proof {
                broadcast use vstd::seq_lib::lemma_seq_contains_after_push;
            }
        }
        i = i + 1;
    }
    proof {
        assert(v@.take(v.len() as int) =~= v@);
        assert(out@.to_set() =~= v@.to_set().remove(x));
    }
    out
}

/// Abstract state of an [`EvdiPeers`]: the index the next peer request
/// starts from, the indices of the peer displays, and whether the headless
/// display exists.
pub struct EvdiPeersState {
    pub next: u32,
    pub peers: Set<u32>,
    pub headless: bool,
}

/// The EVDI virtual displays by index: the peer displays, the index the next
/// peer request starts from, and the headless display.
pub struct EvdiPeers {
    next_peer_index: u32,
    peers: Vec<u32>,
    headless: bool,
}

impl View for EvdiPeers {
    type V = EvdiPeersState;

    closed spec fn view(&self) -> EvdiPeersState {
        EvdiPeersState { next: self.next_peer_index, peers: self.peers@.to_set(), headless: self.headless }
    }
}

impl EvdiPeers {
    /// Each peer index is held once.
    pub closed spec fn wf(&self) -> bool {
        self.peers@.no_duplicates()
    }

    /// No display; peer indices start at 0.
    pub fn new() -> (s: Self)
        ensures
            s.wf(),
            s@.next == 0,
            s@.peers == Set::<u32>::empty(),
            !s@.headless,
    {
        let s = EvdiPeers { next_peer_index: 0, peers: Vec::new(), headless: false };
        proof {
            assert(s@.peers =~= Set::<u32>::empty());
        }
        s
    }

    /// The indices of the peer displays, each once.
    pub fn peer_indices(&self) -> (r: Vec<u32>)
        requires
            self.wf(),
        ensures
            r@.no_duplicates(),
            r@.to_set() == self@.peers,
    {
        self.peers.clone()
    }

    /// How many peer displays exist.
    pub fn count(&self) -> (n: usize)
        requires
            self.wf(),
        ensures
            n == self@.peers.len(),
    {
        proof {
            self.peers@.unique_seq_to_set();
        }
        self.peers.len()
    }

    /// Whether the headless display exists.
    pub fn has_headless(&self) -> (r: bool)
        ensures
            r == self@.headless,
    {
        self.headless
    }

    /// Whether a display may be created at `idx`: not when the maximum is
    /// reached, nothing to do when the index is taken.
    pub fn plug_in_check(&self, idx: u32) -> (r: PlugInCheck)
        requires
            self.wf(),
        ensures
            r == check_plug_in_spec(self@.peers.len(), self@.peers.contains(idx)),
    {
        let n = self.count();
        check_plug_in(n, vec_contains_u32(&self.peers, idx))
    }

    /// The index the next display of a peer request gets: the first one from
    /// the next peer index on that no peer display uses.
    pub fn free_peer_index(&self) -> (r: u32)
        requires
            exists|k: u32| k >= self@.next && !self@.peers.contains(k),
        ensures
            r >= self@.next,
            !self@.peers.contains(r),
            forall|j: u32| self@.next <= j < r ==> self@.peers.contains(j),
    {
        next_peer_index(self.next_peer_index, &self.peers)
    }

    fn insert_peer(&mut self, idx: u32)
        requires
            old(self).wf(),
            !old(self)@.peers.contains(idx),
        ensures
            final(self).wf(),
            final(self)@.peers == old(self)@.peers.insert(idx),
            final(self)@.next == old(self)@.next,
            final(self)@.headless == old(self)@.headless,
    {
        proof {
            lemma_push_unique(self.peers@, idx);
        }
        self.peers.push(idx);
        proof {
            old(self).peers@.lemma_push_to_set_commute(idx);
        }
    }

    /// Registers the display created for a single request at `idx`. When the
    /// index was taken meanwhile, nothing changes and `false` says the new
    /// device is a duplicate to close; else the next peer index moves past
    /// `idx` if it was not already.
    pub fn register_monitor(&mut self, idx: u32) -> (added: bool)
        requires
            old(self).wf(),
            idx < u32::MAX,
        ensures
            final(self).wf(),
            added == !old(self)@.peers.contains(idx),
            !added ==> final(self)@ == old(self)@,
            added ==> final(self)@.peers == old(self)@.peers.insert(idx) && final(self)@.headless == old(self)@.headless
                && final(self)@.next == if idx >= old(self)@.next { (idx + 1) as u32 } else { old(self)@.next },
    {
        if vec_contains_u32(&self.peers, idx) {
            return false;
        }
        self.insert_peer(idx);
        if idx >= self.next_peer_index {
            self.next_peer_index = idx + 1;
        }
        true
    }

    /// Registers the display created for a peer request at `idx`. When the
    /// index was taken meanwhile, nothing changes and `false` says the new
    /// device is a duplicate to close; else the next peer request starts
    /// after `idx`.
    pub fn register_peer(&mut self, idx: u32) -> (added: bool)
        requires
            old(self).wf(),
            idx < u32::MAX,
        ensures
            final(self).wf(),
            added == !old(self)@.peers.contains(idx),
            !added ==> final(self)@ == old(self)@,
            added ==> final(self)@.peers == old(self)@.peers.insert(idx) && final(self)@.headless == old(self)@.headless
                && final(self)@.next == idx + 1,
    {
        if vec_contains_u32(&self.peers, idx) {
            return false;
        }
        self.insert_peer(idx);
        self.next_peer_index = idx + 1;
        true
    }

    /// Registers the headless display; `false` when it already existed, in
    /// which case nothing changes.
    pub fn register_headless(&mut self) -> (added: bool)
        ensures
            added == !old(self)@.headless,
            final(self)@ == (EvdiPeersState { headless: true, ..old(self)@ }),
            old(self).wf() ==> final(self).wf(),
    {
        if self.headless {
            return false;
        }
        self.headless = true;
        true
    }

    /// Removes every display: the peer displays, whose indices are returned,
    /// and the headless one, whether it existed being returned too.
    pub fn reset_all(&mut self) -> (r: (Vec<u32>, bool))
        requires
            old(self).wf(),
        ensures
            final(self).wf(),
            r.0@.no_duplicates(),
            r.0@.to_set() == old(self)@.peers,
            r.1 == old(self)@.headless,
            final(self)@ == (EvdiPeersState { peers: Set::<u32>::empty(), headless: false, ..old(self)@ }),
    {
        let mut all: Vec<u32> = Vec::new();
        std::mem::swap(&mut all, &mut self.peers);
        let had = self.headless;
        self.headless = false;
        proof {
            assert(self@.peers =~= Set::<u32>::empty());
        }
        (all, had)
    }

    /// Removes displays for a plug-out request: every display for a negative
    /// index (as [`EvdiPeers::reset_all`]), else the peer display at `index`
    /// when there is one. Returns the removed peer indices and whether the
    /// headless display was removed.
    pub fn plug_out(&mut self, index: i32) -> (r: (Vec<u32>, bool))
        requires
            old(self).wf(),
        ensures
            final(self).wf(),
            final(self)@.next == old(self)@.next,
            index < 0 ==> {
                &&& r.0@.no_duplicates()
                &&& r.0@.to_set() == old(self)@.peers
                &&& r.1 == old(self)@.headless
                &&& final(self)@.peers == Set::<u32>::empty()
                &&& !final(self)@.headless
            },
            index >= 0 ==> {
                &&& r.0@ == if old(self)@.peers.contains(index as u32) { seq![index as u32] } else { Seq::<u32>::empty() }
                &&& !r.1
                &&& final(self)@.peers == old(self)@.peers.remove(index as u32)
                &&& final(self)@.headless == old(self)@.headless
            },
    {
        if index < 0 {
            return self.reset_all();
        }
        let idx = index as u32;
        let mut removed: Vec<u32> = Vec::new();
        if vec_contains_u32(&self.peers, idx) {
            removed.push(idx);
            self.peers = vec_without_u32(&self.peers, idx);
        } else {
            proof {
                assert(old(self)@.peers.remove(idx) =~= old(self)@.peers);
            }
        }
        (removed, false)
    }

    /// Removes the peer displays named by `indices` and returns their
    /// indices: each requested index that names a display, once, in request
    /// order.
    pub fn plug_out_indices(&mut self, indices: &Vec<u32>) -> (r: Vec<u32>)
        requires
            old(self).wf(),
        ensures
            final(self).wf(),
            r@ == present_in(indices@, old(self)@.peers),
            final(self)@.peers == old(self)@.peers.difference(indices@.to_set()),
            final(self)@.next == old(self)@.next,
            final(self)@.headless == old(self)@.headless,
    {
        let targets = plug_out_indices_targets(indices, &self.peers);
        proof {
            lemma_present_in(indices@, self.peers@);
        }
        let ghost pre = old(self)@.peers;
        let mut j: usize = 0;
        while j < targets.len()
            invariant
                j <= targets@.len(),
                targets@ == present_in(indices@, pre),
                targets@.no_duplicates(),
                targets@.to_set() == pre.intersect(indices@.to_set()),
                self.wf(),
                self@.peers == pre.difference(targets@.take(j as int).to_set()),
                self@.next == old(self)@.next,
                self@.headless == old(self)@.headless,
            decreases targets@.len() - j,
        {
            let x = targets[j];
            self.peers = vec_without_u32(&self.peers, x);
            proof {
                assert(targets@.take(j + 1) =~= targets@.take(j as int).push(x));
                targets@.take(j as int).lemma_push_to_set_commute(x);
                assert(self@.peers =~= pre.difference(targets@.take(j + 1).to_set()));
            }
            j = j + 1;
        }
        proof {
            assert(targets@.take(targets@.len() as int) =~= targets@);
            assert(self@.peers =~= pre.difference(indices@.to_set()));
        }
        targets
    }
}

/// The index the next display of a peer request gets, with the peer
/// displays `peers` and the next peer index `next`: the first index from
/// `next` on that no peer display uses.
pub open spec fn first_free_peer(peers: Set<u32>, next: u32) -> u32 {
    choose|k: u32| k >= next && !peers.contains(k) && forall|j: u32| next <= j < k ==> peers.contains(j)
}

/// Whether some index from `next` on is free.
pub open spec fn has_free_peer(peers: Set<u32>, next: u32) -> bool {
    exists|k: u32| k >= next && !peers.contains(k)
}

/// What a peer request does with the peer displays `peers` and the next
/// peer index `next`, given for each requested mode set, in order, whether
/// its device was created: each mode set gets the first free index from the
/// next peer index on; a created one is registered there and the next peer
/// index moves past it, a failed one is skipped. Gives the peer displays, the
/// next peer index and the registered indices, in order.
pub open spec fn peer_request_spec(peers: Set<u32>, next: u32, created: Seq<bool>) -> (Set<u32>, u32, Seq<u32>)
    decreases created.len(),
{
    if created.len() == 0 {
        (peers, next, Seq::empty())
    } else {
        let idx = first_free_peer(peers, next);
        if created[0] {
            let (p, n, r) = peer_request_spec(peers.insert(idx), (idx + 1) as u32, created.skip(1));
            (p, n, seq![idx] + r)
        } else {
            peer_request_spec(peers, next, created.skip(1))
        }
    }
}

/// Whether a peer request stays within the `u32` indices: each mode set
/// finds a free index, and a created one is not registered at `u32::MAX`
/// (the next peer index after it would not fit).
pub open spec fn peer_request_fits(peers: Set<u32>, next: u32, created: Seq<bool>) -> bool
    decreases created.len(),
{
    if created.len() == 0 {
        true
    } else {
        let idx = first_free_peer(peers, next);
        &&& has_free_peer(peers, next)
        &&& if created[0] {
            &&& idx < u32::MAX
            &&& peer_request_fits(peers.insert(idx), (idx + 1) as u32, created.skip(1))
        } else {
            peer_request_fits(peers, next, created.skip(1))
        }
    }
}

/// How many of `created` are `true`.
pub open spec fn count_created(created: Seq<bool>) -> nat
    decreases created.len(),
{
    if created.len() == 0 {
        0
    } else {
        (if created[0] { 1nat } else { 0nat }) + count_created(created.skip(1))
    }
}

proof fn lemma_first_free_peer(peers: Set<u32>, next: u32, r: u32)
    requires
        r >= next,
        !peers.contains(r),
        forall|j: u32| next <= j < r ==> peers.contains(j),
    ensures
        first_free_peer(peers, next) == r,
{
    let k = first_free_peer(peers, next);
    assert(k >= next && !peers.contains(k) && forall|j: u32| next <= j < k ==> peers.contains(j));
    if k < r {
        assert(peers.contains(k));
    }
    if r < k {
        assert(peers.contains(r));
    }
}

proof fn lemma_first_free_in_set(peers: Set<u32>, next: u32, k: u32)
    requires
        k >= next,
        !peers.contains(k),
    ensures
        exists|m: u32| m >= next && !peers.contains(m) && forall|j: u32| next <= j < m ==> peers.contains(j),
    decreases k - next,
{
    if !(forall|j: u32| next <= j < k ==> peers.contains(j)) {
        let j = choose|j: u32| next <= j < k && !peers.contains(j);
        lemma_first_free_in_set(peers, next, j);
    }
}

proof fn lemma_first_free_peer_props(peers: Set<u32>, next: u32)
    requires
        has_free_peer(peers, next),
    ensures
        first_free_peer(peers, next) >= next,
        !peers.contains(first_free_peer(peers, next)),
        forall|j: u32| next <= j < first_free_peer(peers, next) ==> peers.contains(j),
{
    let k = choose|k: u32| k >= next && !peers.contains(k);
    lemma_first_free_in_set(peers, next, k);
}

/// A peer request registers its displays at strictly increasing indices,
/// each at least the next peer index and none a peer display already; the
/// peer displays become the old ones and those indices; one index is
/// registered per created device and a failed one is skipped; and the next
/// peer index never goes back.
pub proof fn lemma_peer_request(peers: Set<u32>, next: u32, created: Seq<bool>)
    requires
        peer_request_fits(peers, next, created),
    ensures
        ({
            let (p, n, r) = peer_request_spec(peers, next, created);
            &&& forall|i: int, j: int| 0 <= i < j < r.len() ==> r[i] < r[j]
            &&& forall|i: int| 0 <= i < r.len() ==> r[i] >= next && !peers.contains(#[trigger] r[i])
            &&& p == peers.union(r.to_set())
            &&& n >= next
            &&& r.len() == count_created(created)
        }),
    decreases created.len(),
{
    if created.len() > 0 {
        let idx = first_free_peer(peers, next);
        assert(has_free_peer(peers, next));
        lemma_first_free_peer_props(peers, next);
        if created[0] {
            lemma_peer_request(peers.insert(idx), (idx + 1) as u32, created.skip(1));
            let (p, n, r) = peer_request_spec(peers.insert(idx), (idx + 1) as u32, created.skip(1));
            let full = seq![idx] + r;
            assert forall|i: int, j: int| 0 <= i < j < full.len() implies full[i] < full[j] by {
                if i > 0 {
                    assert(full[i] == r[i - 1] && full[j] == r[j - 1]);
                } else {
                    assert(full[j] == r[j - 1]);
                    assert(!peers.insert(idx).contains(r[j - 1]));
                }
            }
            assert forall|i: int| 0 <= i < full.len() implies full[i] >= next && !peers.contains(#[trigger] full[i]) by {
                if i > 0 {
                    assert(full[i] == r[i - 1]);
                    assert(!peers.insert(idx).contains(r[i - 1]));
                }
            }
            assert(full.to_set() =~= r.to_set().insert(idx)) by {
                assert forall|x: u32| #[trigger] full.to_set().contains(x) <==> r.to_set().insert(idx).contains(x) by {
                    if full.contains(x) {
                        let i = choose|i: int| 0 <= i < full.len() && full[i] == x;
                        if i > 0 {
                            assert(r[i - 1] == x);
                        }
                    }
                    if r.contains(x) {
                        let i = choose|i: int| 0 <= i < r.len() && r[i] == x;
                        assert(full[i + 1] == x);
                    }
                    if x == idx {
                        assert(full[0] == x);
                    }
                }
            }
            assert(p =~= peers.union(full.to_set()));
        } else {
            lemma_peer_request(peers, next, created.skip(1));
        }
    }
}

impl EvdiPeers {
    /// Applies a peer request, given for each requested mode set, in order,
    /// whether its device was created: see [`peer_request_spec`]. Returns the
    /// indices the created displays were registered at.
    pub fn apply_peer_request(&mut self, created: &Vec<bool>) -> (r: Vec<u32>)
        requires
            old(self).wf(),
            peer_request_fits(old(self)@.peers, old(self)@.next, created@),
        ensures
            final(self).wf(),
            final(self)@.headless == old(self)@.headless,
            (final(self)@.peers, final(self)@.next, r@) == peer_request_spec(old(self)@.peers, old(self)@.next, created@),
    {
        let mut out: Vec<u32> = Vec::new();
        let mut i: usize = 0;
        proof {
            assert(created@.skip(0) =~= created@);
            let (p, n, r) = peer_request_spec(self@.peers, self@.next, created@);
            assert(out@ + r =~= r);
        }
        while i < created.len()
            invariant
                i <= created@.len(),
                self.wf(),
                self@.headless == old(self)@.headless,
                peer_request_fits(self@.peers, self@.next, created@.skip(i as int)),
                ({
                    let (p, n, r) = peer_request_spec(self@.peers, self@.next, created@.skip(i as int));
                    peer_request_spec(old(self)@.peers, old(self)@.next, created@) == (p, n, out@ + r)
                }),
            decreases created@.len() - i,
        {
            let ghost rest = created@.skip(i as int);
            proof {
                assert(rest.skip(1) =~= created@.skip(i + 1));
                assert(rest[0] == created@[i as int]);
                lemma_first_free_peer_props(self@.peers, self@.next);
            }
            let idx = self.free_peer_index();
            proof {
                lemma_first_free_peer(self@.peers, self@.next, idx);
            }
            if created[i] {
                let ghost pre = self@;
                let ghost (p, n, r) = peer_request_spec(pre.peers.insert(idx), (idx + 1) as u32, created@.skip(i + 1));
                self.register_peer(idx);
                out.push(idx);
                proof {
                    assert(out@.drop_last() + (seq![idx] + r) =~= out@ + r);
                }
            }
            i = i + 1;
        }
        proof {
            assert(created@.skip(created@.len() as int) =~= Seq::<bool>::empty());
            assert(out@ + Seq::<u32>::empty() =~= out@);
        }
        out
    }
}

/// A display registered for a single request and then plugged out by its
/// index is gone again, and the other displays stay.
pub proof fn lemma_evdi_plug_out_undoes_register(peers: Set<u32>, idx: u32)
    requires
        !peers.contains(idx),
    ensures
        peers.insert(idx).remove(idx) == peers,
{
    assert(peers.insert(idx).remove(idx) =~= peers);
}

/// The count of Amyuni displays this process plugged in, after plugging
/// one in (`add`) or out: it stays within `0..=4`.
pub fn amyuni_count_after(count: usize, add: bool) -> (r: usize)
    ensures
        add ==> r == (if count < AMYUNI_MAX_COUNT { count + 1 } else { count as int }),
        !add ==> r == (if count > 0 { count - 1 } else { 0 }),
{
    if add {
        if count < AMYUNI_MAX_COUNT {
            count + 1
        } else {
            count
        }
    } else if count > 0 {
        count - 1
    } else {
        0
    }
}

/// Whether plugging an Amyuni display in is tried again after a failure:
/// only while the driver is still being installed in the background, the
/// failure says there are no more items yet, and less than 3 s have passed.
pub fn amyuni_retry_plug(driver_installing: bool, no_more_items: bool, elapsed_ms: u64) -> (r: bool)
    ensures
        r == (driver_installing && no_more_items && elapsed_ms < 3000),
{
    driver_installing && no_more_items && elapsed_ms < 3000
}

/// Whether the first `n` bytes of `a` and `b` agree.
fn bytes_prefix_eq(a: &[u8], b: &[u8], n: usize) -> (r: bool)
    requires
        n <= a@.len(),
        n <= b@.len(),
    ensures
        r == (a@.take(n as int) == b@.take(n as int)),
{
    let mut i: usize = 0;
    while i < n
        invariant
            i <= n,
            n <= a@.len(),
            n <= b@.len(),
            forall|j: int| 0 <= j < i ==> a@[j] == b@[j],
        decreases n - i,
    {
        if a[i] != b[i] {
            assert(a@.take(n as int)[i as int] != b@.take(n as int)[i as int]);
            return false;
        }
        i = i + 1;
    }
    assert(a@.take(n as int) =~= b@.take(n as int));
    true
}

/// Whether the Windows device name `dn` (read from a fixed-size buffer, so
/// possibly followed by NUL bytes) is the name `n`: the same bytes, or `n`
/// followed by a NUL byte.
pub open spec fn device_name_matches(dn: Seq<u8>, n: Seq<u8>) -> bool {
    if n.len() == dn.len() {
        n == dn
    } else if n.len() > dn.len() {
        false
    } else {
        dn.take(n.len() as int) == n && dn[n.len() as int] == 0
    }
}

/// Whether the Windows device name `device_name` is the display `name`.
pub fn is_device_name(device_name: &str, name: &str) -> (r: bool)
    requires
        name.spec_bytes().len() < device_name.spec_bytes().len() ==> is_char_boundary(
            device_name.spec_bytes(),
            name.spec_bytes().len() as int,
        ),
    ensures
        r == device_name_matches(device_name.spec_bytes(), name.spec_bytes()),
{
    let d = device_name.as_bytes();
    let n = name.as_bytes();
    if n.len() == d.len() {
        let r = bytes_prefix_eq(d, n, n.len());
        proof {
            assert(d@.take(n@.len() as int) =~= d@);
            assert(n@.take(n@.len() as int) =~= n@);
        }
        r
    } else if n.len() > d.len() {
        false
    } else {
        let r = bytes_prefix_eq(d, n, n.len());
        proof {
            assert(n@.take(n@.len() as int) =~= n@);
        }
        r && d[n.len()] == 0
    }
}

/// Whether a display's device string starts with `prefix` (bytes compared).
pub fn device_string_matches(device_string: &str, prefix: &str) -> (r: bool)
    requires
        prefix.spec_bytes().len() <= device_string.spec_bytes().len() ==> is_char_boundary(
            device_string.spec_bytes(),
            prefix.spec_bytes().len() as int,
        ),
    ensures
        r == (prefix.spec_bytes().len() <= device_string.spec_bytes().len()
            && device_string.spec_bytes().take(prefix.spec_bytes().len() as int) == prefix.spec_bytes()),
{
    let d = device_string.as_bytes();
    let p = prefix.as_bytes();
    if d.len() >= p.len() {
        let r = bytes_prefix_eq(d, p, p.len());
        proof {
            assert(p@.take(p@.len() as int) =~= p@);
        }
        r
    } else {
        false
    }
}

} // verus!
