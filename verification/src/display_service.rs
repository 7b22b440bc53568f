//! Display list synchronisation: detecting display changes, remembering the
//! resolutions changed during a session, and choosing the primary display.
use vstd::prelude::*;

verus! {

/// Information about one display, as sent to the peer.
///
/// `scale_bits` holds the bit pattern of the display scale factor.
pub struct DisplayInfo {
    pub x: i32,
    pub y: i32,
    pub width: i32,
    pub height: i32,
    pub name: String,
    pub online: bool,
    pub cursor_embedded: bool,
    pub original_resolution: Option<(i32, i32)>,
    pub scale_bits: u64,
}

/// Whether the `f64` with bit pattern `b` is a NaN: all exponent bits set
/// and a non-zero mantissa.
pub open spec fn f64_bits_is_nan(b: u64) -> bool {
    (b & 0x7ff0_0000_0000_0000u64) == 0x7ff0_0000_0000_0000u64 && (b & 0x000f_ffff_ffff_ffffu64) != 0
}

/// Whether the `f64` with bit pattern `b` is `0.0` or `-0.0`.
pub open spec fn f64_bits_is_zero(b: u64) -> bool {
    (b & 0x7fff_ffff_ffff_ffffu64) == 0
}

/// IEEE 754 equality of the `f64` values with bit patterns `a` and `b`: a NaN
/// equals nothing, `0.0` equals `-0.0`, any other value only itself.
pub open spec fn f64_bits_eq(a: u64, b: u64) -> bool {
    &&& !f64_bits_is_nan(a)
    &&& !f64_bits_is_nan(b)
    &&& (a == b || (f64_bits_is_zero(a) && f64_bits_is_zero(b)))
}

/// Compares the `f64` values with bit patterns `a` and `b` as `==` on `f64` does.
pub fn f64_bits_equal(a: u64, b: u64) -> (r: bool)
    ensures
        r == f64_bits_eq(a, b),
{
    let a_nan = (a & 0x7ff0_0000_0000_0000u64) == 0x7ff0_0000_0000_0000u64 && (a & 0x000f_ffff_ffff_ffffu64) != 0;
    let b_nan = (b & 0x7ff0_0000_0000_0000u64) == 0x7ff0_0000_0000_0000u64 && (b & 0x000f_ffff_ffff_ffffu64) != 0;
    let both_zero = (a & 0x7fff_ffff_ffff_ffffu64) == 0 && (b & 0x7fff_ffff_ffff_ffffu64) == 0;
    !a_nan && !b_nan && (a == b || both_zero)
}

/// Whether two display descriptions are equal as `==` on them compares:
/// field by field, the scale factors as `f64` values.
pub open spec fn same_display(a: DisplayInfo, b: DisplayInfo) -> bool {
    &&& a.x == b.x
    &&& a.y == b.y
    &&& a.width == b.width
    &&& a.height == b.height
    &&& a.name@ == b.name@
    &&& a.online == b.online
    &&& a.cursor_embedded == b.cursor_embedded
    &&& a.original_resolution == b.original_resolution
    &&& f64_bits_eq(a.scale_bits, b.scale_bits)
}

/// Whether two display lists are equal, display by display.
pub open spec fn same_displays(a: Seq<DisplayInfo>, b: Seq<DisplayInfo>) -> bool {
    a.len() == b.len() && forall|i: int| 0 <= i < a.len() ==> same_display(#[trigger] a[i], b[i])
}

/// Compares two display descriptions field by field, the scale factors as
/// `f64` values.
pub fn display_info_eq(a: &DisplayInfo, b: &DisplayInfo) -> (r: bool)
    ensures
        r == same_display(*a, *b),
{
    a.x == b.x && a.y == b.y && a.width == b.width && a.height == b.height && a.name == b.name
        && a.online == b.online && a.cursor_embedded == b.cursor_embedded
        && same_resolution(a.original_resolution, b.original_resolution) && f64_bits_equal(a.scale_bits, b.scale_bits)
}

fn same_resolution(a: Option<(i32, i32)>, b: Option<(i32, i32)>) -> (r: bool)
    ensures
        r == (a == b),
{
    match (a, b) {
        (Some((aw, ah)), Some((bw, bh))) => aw == bw && ah == bh,
        (None, None) => true,
        _ => false,
    }
}

/// A copy of one display description.
pub fn clone_display_info(d: &DisplayInfo) -> (r: DisplayInfo)
    ensures
        r == *d,
{
    DisplayInfo {
        x: d.x,
        y: d.y,
        width: d.width,
        height: d.height,
        name: d.name.clone(),
        online: d.online,
        cursor_embedded: d.cursor_embedded,
        original_resolution: d.original_resolution,
        scale_bits: d.scale_bits,
    }
}

/// A copy of a display list.
pub fn clone_displays(ds: &Vec<DisplayInfo>) -> (r: Vec<DisplayInfo>)
    ensures
        r@ == ds@,
{
    let mut out: Vec<DisplayInfo> = Vec::new();
    let mut i: usize = 0;
    while i < ds.len()
        invariant
            i <= ds.len(),
            out@ == ds@.take(i as int),
        decreases ds.len() - i,
    {
        out.push(clone_display_info(&ds[i]));
        i = i + 1;
        proof {
            assert(out@ =~= ds@.take(i as int));
        }
    }
    proof {
        assert(ds@.take(ds.len() as int) =~= ds@);
    }
    out
}

/// The display list last seen, and whether the peer has been sent it.
pub struct SyncDisplaysInfo {
    pub displays: Vec<DisplayInfo>,
    pub is_synced: bool,
}

impl SyncDisplaysInfo {
    /// No displays, not synced.
    pub fn new() -> (s: Self)
        ensures
            s.displays@.len() == 0,
            !s.is_synced,
    {
        SyncDisplaysInfo { displays: Vec::new(), is_synced: false }
    }

    /// Records a freshly read display list. When it differs from the stored
    /// one, it replaces it and, unless changes are temporarily ignored, the
    /// list is marked as not synced. An equal list changes nothing.
    pub fn check_changed(&mut self, displays: Vec<DisplayInfo>, ignore: bool)
        ensures
            if same_displays(old(self).displays@, displays@) {
                *final(self) == *old(self)
            } else {
                &&& final(self).displays@ == displays@
                &&& final(self).is_synced == (old(self).is_synced && ignore)
            },
    {
        if self.displays.len() != displays.len() {
            self.displays = displays;
            if !ignore {
                self.is_synced = false;
            }
            return;
        }
        let mut i: usize = 0;
        while i < displays.len()
            invariant
                i <= displays.len(),
                self.displays@.len() == displays@.len(),
                *self == *old(self),
                forall|j: int| 0 <= j < i ==> same_display(#[trigger] displays@[j], self.displays@[j]),
            decreases displays.len() - i,
        {
            if !display_info_eq(&displays[i], &self.displays[i]) {
                self.displays = displays;
                if !ignore {
                    self.is_synced = false;
                }
                return;
            }
            i = i + 1;
        }
    }

    /// Hands out the display list once after each change: `None` when the
    /// peer is already synced, else marks it synced and returns a copy.
    pub fn get_update_sync_displays(&mut self) -> (r: Option<Vec<DisplayInfo>>)
        ensures
            old(self).is_synced ==> r is None && *final(self) == *old(self),
            !old(self).is_synced ==> r is Some && r->0@ == old(self).displays@
                && final(self).displays@ == old(self).displays@ && final(self).is_synced,
    {
        if self.is_synced {
            return None;
        }
        self.is_synced = true;
        Some(clone_displays(&self.displays))
    }
}

/// Records a freshly read display list (the part of checking for display
/// changes that follows reading the displays).
pub fn check_displays_changed(sync: &mut SyncDisplaysInfo, displays: Vec<DisplayInfo>, ignore: bool)
    ensures
        if same_displays(old(sync).displays@, displays@) {
            *final(sync) == *old(sync)
        } else {
            &&& final(sync).displays@ == displays@
            &&& final(sync).is_synced == (old(sync).is_synced && ignore)
        },
{
    sync.check_changed(displays, ignore);
}

/// Given the synced display list, whether the captured display `idx` with the
/// geometry `(x, y, w, h)` out of `ndisplay` displays differs from it; returns
/// the synced description of that display when it does.
pub fn check_display_changed(
    synced: &Vec<DisplayInfo>,
    ndisplay: usize,
    idx: usize,
    geometry: (i32, i32, usize, usize),
) -> (r: Option<DisplayInfo>)
    ensures
        idx >= synced@.len() ==> r is None,
        idx < synced@.len() ==> {
            let d = synced@[idx as int];
            let (x, y, w, h) = geometry;
            if ndisplay != synced@.len() {
                r == Some(d)
            } else if d.x == x && d.y == y && d.width == w as i32 && d.height == h as i32 {
                r is None
            } else {
                r == Some(d)
            }
        },
{
    if idx >= synced.len() {
        return None;
    }
    let d = &synced[idx];
    if ndisplay != synced.len() {
        return Some(clone_display_info(d));
    }
    let (x, y, w, h) = geometry;
    if !(d.x == x && d.y == y && d.width == w as i32 && d.height == h as i32) {
        Some(clone_display_info(d))
    } else {
        None
    }
}

/// One display whose resolution was changed during the session.
pub struct ChangedResolution {
    pub name: String,
    pub original: (i32, i32),
    pub changed: (i32, i32),
}

/// The resolutions changed during the session, by display name.
pub struct ChangedResolutions {
    entries: Vec<ChangedResolution>,
}

/// Abstract value of one changed resolution: display name, original and
/// changed resolution.
pub type ChangedEntry = (Seq<char>, (i32, i32), (i32, i32));

/// Index of the last entry for `name`, if any.
pub open spec fn find_name(s: Seq<ChangedEntry>, name: Seq<char>) -> Option<int>
    decreases s.len(),
{
    if s.len() == 0 {
        None
    } else if s.last().0 == name {
        Some(s.len() - 1)
    } else {
        find_name(s.drop_last(), name)
    }
}

/// Display names occur at most once.
pub open spec fn names_unique(s: Seq<ChangedEntry>) -> bool {
    forall|i: int, j: int| 0 <= i < s.len() && 0 <= j < s.len() && i != j ==> (#[trigger] s[i]).0 != (#[trigger] s[j]).0
}

impl View for ChangedResolutions {
    type V = Seq<ChangedEntry>;

    closed spec fn view(&self) -> Seq<ChangedEntry> {
        self.entries@.map_values(|e: ChangedResolution| (e.name@, e.original, e.changed))
    }
}

proof fn lemma_find_name(s: Seq<ChangedEntry>, name: Seq<char>)
    ensures
        match find_name(s, name) {
            Some(k) => 0 <= k < s.len() && s[k].0 == name && forall|j: int| k < j < s.len() ==> s[j].0 != name,
            None => forall|j: int| 0 <= j < s.len() ==> s[j].0 != name,
        },
    decreases s.len(),
{
    if s.len() > 0 {
        let t = s.drop_last();
        lemma_find_name(t, name);
        assert forall|j: int| 0 <= j < t.len() implies t[j] == s[j] by {}
    }
}

impl ChangedResolutions {
    /// No changed resolution.
    pub fn new() -> (c: Self)
        ensures
            c@ == Seq::<ChangedEntry>::empty(),
    {
        let c = ChangedResolutions { entries: Vec::new() };
        proof {
            assert(c@ =~= Seq::<ChangedEntry>::empty());
        }
        c
    }

    /// Index of the entry for `name`, searching from the end.
    fn position(&self, name: &String) -> (r: Option<usize>)
        ensures
            self@.len() == self.entries@.len(),
            match find_name(self@, name@) {
                Some(k) => r matches Some(j) && j as int == k,
                None => r is None,
            },
            r matches Some(k) ==> k < self.entries@.len() && self@[k as int].1 == self.entries@[k as int].original
                && self@[k as int].0 == self.entries@[k as int].name@,
    {
        let mut i: usize = self.entries.len();
        proof {
            assert(self@.take(i as int) =~= self@);
        }
        while i > 0
            invariant
                i <= self.entries@.len(),
                find_name(self@, name@) == find_name(self@.take(i as int), name@),
            decreases i,
        {
            proof {
                assert(self@.take(i as int).drop_last() =~= self@.take(i - 1));
                assert(self@.take(i as int).last() == self@[i - 1]);
            }
            if self.entries[i - 1].name == *name {
                return Some(i - 1);
            }
            i = i - 1;
        }
        None
    }
}

/// Records that the resolution of `display_name` was changed to `changed`.
/// The first recorded original resolution of a display is kept: a later call
/// for the same display only updates the changed resolution.
pub fn set_last_changed_resolution(
    store: &mut ChangedResolutions,
    display_name: &str,
    original: (i32, i32),
    changed: (i32, i32),
)
    ensures
        match find_name(old(store)@, display_name@) {
            Some(k) => final(store)@ == old(store)@.update(k, (display_name@, old(store)@[k].1, changed)),
            None => final(store)@ == old(store)@.push((display_name@, original, changed)),
        },
        names_unique(old(store)@) ==> names_unique(final(store)@),
{
    proof {
        if names_unique(old(store)@) {
            lemma_record_keeps_names_unique(old(store)@, display_name@, original, changed);
        }
    }
    let name = display_name.to_owned();
    assert(name@ == display_name@);
    proof {
        lemma_find_name(old(store)@, display_name@);
    }
    match store.position(&name) {
        Some(k) => {
            let old_entry = &store.entries[k];
            let entry = ChangedResolution {
                name: old_entry.name.clone(),
                original: old_entry.original,
                changed,
            };
            proof {
                assert(find_name(old(store)@, display_name@) == Some(k as int));
                assert(old(store)@[k as int].0 == display_name@);
                assert(old_entry.name@ == old(store)@[k as int].0);
                assert(entry.name@ == display_name@);
                assert(entry.original == old(store)@[k as int].1);
            }
            store.entries.set(k, entry);
            proof {
                assert(store.entries@ == old(store).entries@.update(k as int, entry));
                assert forall|j: int| 0 <= j < store@.len() implies store@[j] == old(store)@.update(k as int, (display_name@, old(store)@[k as int].1, changed))[j] by {
                    if j == k as int {
                    } else {
                        assert(store.entries@[j] == old(store).entries@[j]);
                    }
                }
                assert(store@ =~= old(store)@.update(k as int, (display_name@, old(store)@[k as int].1, changed)));
            }
        },
        None => {
            store.entries.push(ChangedResolution { name, original, changed });
            proof {
                assert(store@ =~= old(store)@.push((display_name@, original, changed)));
            }
        },
    }
}

/// The `(name, original width, original height)` of every changed display,
/// in the order they were first recorded; the store is emptied, as the
/// originals are being restored.
pub fn restore_resolutions(store: &mut ChangedResolutions) -> (r: Vec<(String, i32, i32)>)
    ensures
        r@.len() == old(store)@.len(),
        forall|i: int| 0 <= i < r@.len() ==> (#[trigger] r@[i]).0@ == old(store)@[i].0 && r@[i].1
            == old(store)@[i].1.0 && r@[i].2 == old(store)@[i].1.1,
        final(store)@ == Seq::<ChangedEntry>::empty(),
{
    let mut out: Vec<(String, i32, i32)> = Vec::new();
    let mut i: usize = 0;
    while i < store.entries.len()
        invariant
            i <= store.entries@.len(),
            *store == *old(store),
            out@.len() == i,
            forall|j: int| 0 <= j < i ==> (#[trigger] out@[j]).0@ == old(store)@[j].0 && out@[j].1
                == old(store)@[j].1.0 && out@[j].2 == old(store)@[j].1.1,
        decreases store.entries@.len() - i,
    {
        let e = &store.entries[i];
        out.push((e.name.clone(), e.original.0, e.original.1));
        i = i + 1;
    }
    store.entries.clear();
    proof {
        assert(store@ =~= Seq::<ChangedEntry>::empty());
    }
    out
}

/// The original resolution reported for a display: `(0, 0)` for one of our
/// own virtual displays, else the original recorded before a change, else the
/// current size.
pub fn get_original_resolution(
    store: &ChangedResolutions,
    is_own_virtual_display: bool,
    display_name: &str,
    w: usize,
    h: usize,
) -> (r: (i32, i32))
    ensures
        is_own_virtual_display ==> r == (0i32, 0i32),
        !is_own_virtual_display ==> match find_name(store@, display_name@) {
            Some(k) => r == store@[k].1,
            None => r == (w as i32, h as i32),
        },
{
    if is_own_virtual_display {
        return (0, 0);
    }
    let name = display_name.to_owned();
    assert(name@ == display_name@);
    proof {
        lemma_find_name(store@, display_name@);
    }
    match store.position(&name) {
        Some(k) => {
            assert(store@[k as int].1 == store.entries@[k as int].original);
            store.entries[k].original
        },
        None => {
            let r = (#[verifier::truncate] (w as i32), #[verifier::truncate] (h as i32));
            assert(r == (w as i32, h as i32));
            r
        },
    }
}

/// The original resolution of a display as [`get_original_resolution`] reports it.
pub open spec fn original_resolution_spec(
    store: Seq<ChangedEntry>,
    is_own_virtual_display: bool,
    name: Seq<char>,
    w: usize,
    h: usize,
) -> (i32, i32) {
    if is_own_virtual_display {
        (0i32, 0i32)
    } else {
        match find_name(store, name) {
            Some(k) => store[k].1,
            None => (w as i32, h as i32),
        }
    }
}

/// What the display list reads of one captured display.
///
/// `logical_width` and `logical_height` are the size divided by the scale
/// factor and rounded; `scale_bits` is the bit pattern of that factor.
pub struct CapturedDisplay {
    pub x: i32,
    pub y: i32,
    pub width: usize,
    pub height: usize,
    pub name: String,
    pub online: bool,
    pub logical_width: usize,
    pub logical_height: usize,
    pub scale_bits: u64,
    pub is_own_virtual_display: bool,
}

/// The description sent to the peer for one captured display.
pub open spec fn display_info_of(d: CapturedDisplay, store: Seq<ChangedEntry>) -> DisplayInfo {
    DisplayInfo {
        x: d.x,
        y: d.y,
        width: d.width as i32,
        height: d.height as i32,
        name: d.name,
        online: d.online,
        cursor_embedded: false,
        original_resolution: Some(
            original_resolution_spec(store, d.is_own_virtual_display, d.name@, d.logical_width, d.logical_height),
        ),
        scale_bits: d.scale_bits,
    }
}

/// The display list sent to the peer, one description per captured display,
/// in order. The original resolution of each display comes from `store`.
pub fn build_display_infos(all: &Vec<CapturedDisplay>, store: &ChangedResolutions) -> (r: Vec<DisplayInfo>)
    ensures
        r@.len() == all@.len(),
        forall|i: int| 0 <= i < all@.len() ==> #[trigger] r@[i] == display_info_of(all@[i], store@),
{
    let mut out: Vec<DisplayInfo> = Vec::new();
    let mut i: usize = 0;
    while i < all.len()
        invariant
            i <= all@.len(),
            out@.len() == i,
            forall|j: int| 0 <= j < i ==> #[trigger] out@[j] == display_info_of(all@[j], store@),
        decreases all@.len() - i,
    {
        let d = &all[i];
        let original = get_original_resolution(
            store,
            d.is_own_virtual_display,
            d.name.as_str(),
            d.logical_width,
            d.logical_height,
        );
        let info = DisplayInfo {
            x: d.x,
            y: d.y,
            width: #[verifier::truncate] (d.width as i32),
            height: #[verifier::truncate] (d.height as i32),
            name: d.name.clone(),
            online: d.online,
            cursor_embedded: false,
            original_resolution: Some(original),
            scale_bits: d.scale_bits,
        };
        out.push(info);
        i = i + 1;
    }
    out
}

/// Index of the first primary display, or 0 when none is.
pub fn get_primary_2(primary_flags: &Vec<bool>) -> (r: usize)
    ensures
        (exists|i: int| 0 <= i < primary_flags@.len() && primary_flags@[i]) ==> {
            &&& r < primary_flags@.len()
            &&& primary_flags@[r as int]
            &&& forall|j: int| 0 <= j < r ==> !primary_flags@[j]
        },
        (forall|i: int| 0 <= i < primary_flags@.len() ==> !primary_flags@[i]) ==> r == 0,
{
    let mut i: usize = 0;
    while i < primary_flags.len()
        invariant
            i <= primary_flags@.len(),
            forall|j: int| 0 <= j < i ==> !primary_flags@[j],
        decreases primary_flags@.len() - i,
    {
        if primary_flags[i] {
            return i;
        }
        i = i + 1;
    }
    0
}

/// Index of the primary display from the displays' primary flags, when they
/// could be read; 0 when they could not.
pub fn get_primary(primary_flags: Option<&Vec<bool>>) -> (r: usize)
    ensures
        primary_flags is None ==> r == 0,
        primary_flags matches Some(flags) ==> {
            &&& (exists|i: int| 0 <= i < flags@.len() && flags@[i]) ==> {
                &&& r < flags@.len()
                &&& flags@[r as int]
                &&& forall|j: int| 0 <= j < r ==> !flags@[j]
            }
            &&& (forall|i: int| 0 <= i < flags@.len() ==> !flags@[i]) ==> r == 0
        },
{
    match primary_flags {
        Some(flags) => get_primary_2(flags),
        None => 0,
    }
}

/// Largest side, in pixels, of a placeholder display shown when no monitor is attached.
pub const DUMMY_DISPLAY_SIDE_MAX_SIZE: usize = 1024;

/// Whether a resolution has a side larger than a placeholder display's.
pub open spec fn is_real_resolution(r: (i32, i32)) -> bool {
    r.0 < 0 || r.0 > 1024 || r.1 < 0 || r.1 > 1024
}

/// Whether the attached displays amount to no display: none at all, or a
/// single small display (at most 1024 x 1024) none of whose supported
/// resolutions `first_resolutions` is larger.
pub fn no_displays(sizes: &Vec<(usize, usize)>, first_resolutions: &Vec<(i32, i32)>) -> (r: bool)
    ensures
        r == (sizes@.len() == 0 || (sizes@.len() == 1
            && sizes@[0].0 <= DUMMY_DISPLAY_SIDE_MAX_SIZE
            && sizes@[0].1 <= DUMMY_DISPLAY_SIDE_MAX_SIZE
            && forall|i: int| 0 <= i < first_resolutions@.len() ==> !is_real_resolution(#[trigger] first_resolutions@[i]))),
{
    let display_len = sizes.len();
    if display_len == 0 {
        true
    } else if display_len == 1 {
        let (w, h) = sizes[0];
        assert(w == sizes@[0].0 && h == sizes@[0].1);
        if w > DUMMY_DISPLAY_SIDE_MAX_SIZE || h > DUMMY_DISPLAY_SIDE_MAX_SIZE {
            return false;
        }
        let mut i: usize = 0;
        while i < first_resolutions.len()
            invariant
                i <= first_resolutions@.len(),
                sizes@.len() == 1,
                sizes@[0].0 <= DUMMY_DISPLAY_SIDE_MAX_SIZE,
                sizes@[0].1 <= DUMMY_DISPLAY_SIDE_MAX_SIZE,
                forall|j: int| 0 <= j < i ==> !is_real_resolution(#[trigger] first_resolutions@[j]),
            decreases first_resolutions@.len() - i,
        {
            let (rw, rh) = first_resolutions[i];
            if rh < 0 || rh > 1024 || rw < 0 || rw > 1024 {
                assert(is_real_resolution(first_resolutions@[i as int]));
                return false;
            }
            i = i + 1;
        }
        true
    } else {
        false
    }
}

/// What the platform offers for adding a headless virtual display.
pub struct HeadlessEnv {
    pub is_installed: bool,
    pub virtual_display_supported: bool,
    pub is_amyuni_idd: bool,
    pub no_displays: bool,
}

/// Whether a headless virtual display should be plugged in after reading the
/// displays: only when installed, supported, not blocked by the Amyuni
/// driver (unless `add_amyuni_headless`), and no real display is attached.
pub fn try_get_displays_(add_amyuni_headless: bool, env: &HeadlessEnv) -> (plug_in_headless: bool)
    ensures
        plug_in_headless == (env.is_installed && env.virtual_display_supported && (!env.is_amyuni_idd
            || add_amyuni_headless) && env.no_displays),
{
    if !env.is_installed || !env.virtual_display_supported {
        return false;
    }
    if env.is_amyuni_idd && !add_amyuni_headless {
        return false;
    }
    env.no_displays
}

/// [`try_get_displays_`] without adding a headless display for the Amyuni driver.
pub fn try_get_displays(env: &HeadlessEnv) -> (plug_in_headless: bool)
    ensures
        plug_in_headless == (env.is_installed && env.virtual_display_supported && !env.is_amyuni_idd
            && env.no_displays),
{
    try_get_displays_(false, env)
}

/// [`try_get_displays_`] that also adds a headless display for the Amyuni driver.
pub fn try_get_displays_add_amyuni_headless(env: &HeadlessEnv) -> (plug_in_headless: bool)
    ensures
        plug_in_headless == (env.is_installed && env.virtual_display_supported && env.no_displays),
{
    try_get_displays_(true, env)
}

/// A platform whose display reading plugs in a headless display by itself.
#[derive(Debug, Clone, Copy, PartialEq, Eq)]
pub enum UnixPlatform {
    Linux,
    MacOs,
}

/// Whether reading the displays on Linux or macOS plugs in a headless virtual
/// display: when none was read and virtual displays are supported; on Linux
/// the headless mode must be allowed as well.
pub fn unix_plug_in_headless(
    platform: UnixPlatform,
    display_count: usize,
    headless_allowed: bool,
    virtual_display_supported: bool,
) -> (plug_in_headless: bool)
    ensures
        plug_in_headless == (display_count == 0 && virtual_display_supported && (platform == UnixPlatform::MacOs
            || headless_allowed)),
{
    if display_count != 0 || !virtual_display_supported {
        return false;
    }
    match platform {
        UnixPlatform::Linux => headless_allowed,
        UnixPlatform::MacOs => true,
    }
}

/// After plugging in the headless display on Linux or macOS: when it worked,
/// the displays are read again after this many milliseconds; when it failed,
/// the displays already read are used.
pub fn unix_reread_after_plug_in(plugged_in: bool) -> (wait_ms: Option<u64>)
    ensures
        wait_ms == if plugged_in { Some(1000u64) } else { None::<u64> },
{
    if plugged_in {
        Some(1000)
    } else {
        None
    }
}

/// The display service polls quickly at first and slows down once the
/// displays have stayed unchanged for more than 10 polls.
pub fn poll_interval_ms(no_change_count: u32) -> (ms: u64)
    ensures
        ms == if no_change_count > 10 { 1000u64 } else { 300u64 },
{
    if no_change_count > 10 {
        1000
    } else {
        300
    }
}

/// One more poll without change, saturating.
pub fn next_no_change_count(no_change_count: u32, changed: bool) -> (n: u32)
    ensures
        changed ==> n == 0,
        !changed ==> n == if no_change_count == u32::MAX { u32::MAX } else { (no_change_count + 1) as u32 },
{
    if changed {
        0
    } else {
        no_change_count.saturating_add(1)
    }
}

/// What [`SyncDisplaysInfo::check_changed`] does to the stored list and flag.
pub open spec fn check_changed_post(
    pre_displays: Seq<DisplayInfo>,
    pre_synced: bool,
    displays: Seq<DisplayInfo>,
    ignore: bool,
) -> (Seq<DisplayInfo>, bool) {
    if same_displays(pre_displays, displays) {
        (pre_displays, pre_synced)
    } else {
        (displays, pre_synced && ignore)
    }
}

/// Two displays count as the same only when every field agrees: position,
/// size, name, state, original resolution and scale (as `f64` values); and
/// when every field agrees they count as the same.
pub proof fn lemma_same_display_fields(a: DisplayInfo, b: DisplayInfo)
    ensures
        same_display(a, b) <==> {
            &&& a.x == b.x
            &&& a.y == b.y
            &&& a.width == b.width
            &&& a.height == b.height
            &&& a.name@ == b.name@
            &&& a.online == b.online
            &&& a.cursor_embedded == b.cursor_embedded
            &&& a.original_resolution == b.original_resolution
            &&& f64_bits_eq(a.scale_bits, b.scale_bits)
        },
{
}

/// A display that moved is a change: when a display of the new list stands
/// at another position than the stored display in its place, the new list is
/// stored and, unless changes are being ignored, the peer is marked as not
/// synced.
pub proof fn lemma_moved_display_is_change(
    pre_displays: Seq<DisplayInfo>,
    pre_synced: bool,
    displays: Seq<DisplayInfo>,
    ignore: bool,
    i: int,
)
    requires
        0 <= i < displays.len(),
        i < pre_displays.len(),
        displays[i].x != pre_displays[i].x || displays[i].y != pre_displays[i].y,
    ensures
        check_changed_post(pre_displays, pre_synced, displays, ignore) == (displays, pre_synced && ignore),
{
    assert(!same_display(pre_displays[i], displays[i]));
}

/// A display change that is not being ignored is handed to the peer by the
/// next [`SyncDisplaysInfo::get_update_sync_displays`], and only once: the
/// call after it hands out nothing until the displays change again. A display
/// whose scale is NaN never equals itself, so such a list counts as changed on
/// every check; the law is stated for lists without one.
pub proof fn lemma_change_reported_once(
    pre_displays: Seq<DisplayInfo>,
    pre_synced: bool,
    displays: Seq<DisplayInfo>,
)
    requires
        !same_displays(pre_displays, displays),
        forall|i: int| 0 <= i < displays.len() ==> !f64_bits_is_nan(#[trigger] displays[i].scale_bits),
    ensures
        ({
            let (d, synced) = check_changed_post(pre_displays, pre_synced, displays, false);
            &&& !synced
            &&& d == displays
            &&& check_changed_post(d, true, displays, false) == (displays, true)
        }),
{
    assert forall|i: int| 0 <= i < displays.len() implies same_display(#[trigger] displays[i], displays[i]) by {}
}

/// Recording a display twice keeps the original resolution from the first
/// record and the changed resolution from the last one, so restoring goes
/// back to the resolution the display had before the session changed it.
pub proof fn lemma_first_original_kept(
    pre: Seq<ChangedEntry>,
    name: Seq<char>,
    o1: (i32, i32),
    c1: (i32, i32),
    c2: (i32, i32),
)
    requires
        find_name(pre, name) is None,
    ensures
        ({
            let s1 = pre.push((name, o1, c1));
            &&& find_name(s1, name) == Some(pre.len() as int)
            &&& s1.update(pre.len() as int, (name, s1[pre.len() as int].1, c2)).last() == (name, o1, c2)
        }),
{
    let s1 = pre.push((name, o1, c1));
    assert(s1.drop_last() =~= pre);
}

/// Records only ever add a display name once.
pub proof fn lemma_record_keeps_names_unique(pre: Seq<ChangedEntry>, name: Seq<char>, original: (i32, i32), changed: (i32, i32))
    requires
        names_unique(pre),
    ensures
        match find_name(pre, name) {
            Some(k) => names_unique(pre.update(k, (name, pre[k].1, changed))),
            None => names_unique(pre.push((name, original, changed))),
        },
{
    lemma_find_name(pre, name);
    match find_name(pre, name) {
        Some(k) => {
            let s = pre.update(k, (name, pre[k].1, changed));
            assert forall|i: int, j: int| 0 <= i < s.len() && 0 <= j < s.len() && i != j implies (#[trigger] s[i]).0 != (#[trigger] s[j]).0 by {
                assert(pre[i].0 != pre[j].0);
            }
        },
        None => {
            let s = pre.push((name, original, changed));
            assert forall|i: int, j: int| 0 <= i < s.len() && 0 <= j < s.len() && i != j implies (#[trigger] s[i]).0 != (#[trigger] s[j]).0 by {
                if i < pre.len() && j < pre.len() {
                    assert(pre[i].0 != pre[j].0);
                }
            }
        },
    }
}

} // verus!
