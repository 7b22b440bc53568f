//! EDID generation for virtual monitors.
//!
//! A 128-byte EDID 1.3 base block is generated for a requested resolution and
//! refresh rate, with a single preferred Detailed Timing Descriptor.
use vstd::prelude::*;

verus! {

/// Maximum resolution accepted from a remote peer.
pub const MAX_SUPPORTED_RESOLUTION: u32 = 8192;

/// Maximum resolution encodable in an EDID Detailed Timing Descriptor (12-bit fields).
pub const EDID_DTD_MAX_RESOLUTION: u32 = 4095;

/// Maximum pixel clock encodable in a Detailed Timing Descriptor (16-bit field, 10 kHz units).
pub const EDID_DTD_MAX_PIXEL_CLOCK_10KHZ: u64 = 65535;

/// Horizontal blanking, front porch and sync width used for a given width.
pub open spec fn h_timing(width: int) -> (int, int, int) {
    if width <= 1920 {
        (280, 88, 44)
    } else if width <= 2560 {
        (160, 48, 32)
    } else {
        (560, 176, 88)
    }
}

/// Vertical blanking, front porch and sync width used for a given height.
pub open spec fn v_timing(height: int) -> (int, int, int) {
    if height <= 1080 {
        (45, 4, 5)
    } else if height <= 1440 {
        (41, 3, 5)
    } else {
        (90, 8, 10)
    }
}

pub open spec fn min_int(a: int, b: int) -> int {
    if a <= b { a } else { b }
}

pub open spec fn max_int(a: int, b: int) -> int {
    if a >= b { a } else { b }
}

/// Estimated pixel clock in Hz: total pixels per frame times the refresh rate,
/// capped at `u32::MAX`.
pub open spec fn spec_pixel_clock(width: int, height: int, refresh: int) -> int {
    min_int(
        (width + h_timing(width).0) * (height + v_timing(height).0) * refresh,
        u32::MAX as int,
    )
}

/// Pixel clock of the DTD in 10 kHz units, capped at the 16-bit maximum.
/// `width` and `height` are the clamped active sizes.
pub open spec fn dtd_pixel_clock_10khz(width: int, height: int, refresh: int) -> int {
    min_int(
        (width + h_timing(width).0) * (height + v_timing(height).0) * refresh / 10000,
        EDID_DTD_MAX_PIXEL_CLOCK_10KHZ as int,
    )
}

/// The 18 bytes of the Detailed Timing Descriptor for the given mode.
/// Active sizes above the 12-bit limit are clamped to it.
pub open spec fn dtd_spec(width: int, height: int, refresh: int) -> Seq<u8> {
    let w = min_int(width, EDID_DTD_MAX_RESOLUTION as int);
    let h = min_int(height, EDID_DTD_MAX_RESOLUTION as int);
    let (hb, hfp, hs) = h_timing(w);
    let (vb, vfp, vs) = v_timing(h);
    let pc = dtd_pixel_clock_10khz(w, h, refresh);
    let h_mm = w * 254 / 960;
    let v_mm = h * 254 / 960;
    seq![
        (pc % 256) as u8,
        (pc / 256 % 256) as u8,
        (w % 256) as u8,
        (hb % 256) as u8,
        ((w / 256 % 16) * 16 + hb / 256 % 16) as u8,
        (h % 256) as u8,
        (vb % 256) as u8,
        ((h / 256 % 16) * 16 + vb / 256 % 16) as u8,
        (hfp % 256) as u8,
        (hs % 256) as u8,
        ((vfp % 16) * 16 + vs % 16) as u8,
        ((hfp / 256 % 4) * 64 + (hs / 256 % 4) * 16 + (vfp / 16 % 4) * 4 + vs / 16 % 4) as u8,
        (h_mm % 256) as u8,
        (v_mm % 256) as u8,
        ((h_mm / 256 % 16) * 16 + v_mm / 256 % 16) as u8,
        0u8,
        0u8,
        0x1Eu8,
    ]
}

/// Header, vendor/product identification and EDID version (bytes 0-19).
/// Manufacturer "RHZ", product 1, serial 1, week 1 of 2024, EDID 1.3.
pub open spec fn ident_spec() -> Seq<u8> {
    seq![
        0x00u8, 0xFFu8, 0xFFu8, 0xFFu8, 0xFFu8, 0xFFu8, 0xFFu8, 0x00u8,
        0x49u8, 0x1Au8,
        0x01u8, 0x00u8,
        0x01u8, 0x00u8, 0x00u8, 0x00u8,
        0x01u8, 0x22u8,
        0x01u8, 0x03u8,
    ]
}

/// Screen size in cm for a size in pixels at about 96 DPI, within 1..=255.
pub open spec fn size_cm(pixels: int) -> int {
    min_int(max_int(pixels * 254 / 9600, 1), 255)
}

/// Basic display parameters (bytes 20-24): digital input, size in cm,
/// gamma 2.2, RGB colour with the preferred timing in the first DTD.
pub open spec fn basic_params_spec(width: int, height: int) -> Seq<u8> {
    seq![0x80u8, size_cm(width) as u8, size_cm(height) as u8, 0x78u8, 0x0Au8]
}

/// A sequence of `n` copies of `b`.
pub open spec fn repeat(b: u8, n: nat) -> Seq<u8> {
    Seq::new(n, |i: int| b)
}

/// Monitor name descriptor (bytes 72-89): "RustHorizon", LF, space.
pub open spec fn name_descriptor_spec() -> Seq<u8> {
    seq![
        0x00u8, 0x00u8, 0x00u8, 0xFCu8, 0x00u8,
        0x52u8, 0x75u8, 0x73u8, 0x74u8, 0x48u8, 0x6Fu8, 0x72u8, 0x69u8, 0x7Au8, 0x6Fu8, 0x6Eu8,
        0x0Au8, 0x20u8,
    ]
}

/// Monitor range limits descriptor (bytes 90-107): vertical range
/// `refresh - 10 ..= refresh + 10` (bounded), horizontal 30-80 kHz, and a
/// maximum pixel clock just above the estimate, in 10 MHz units.
pub open spec fn range_descriptor_spec(width: int, height: int, refresh: int) -> Seq<u8> {
    let min_v = max_int(if refresh >= 10 { refresh - 10 } else { 0 }, 1);
    let max_v = min_int(refresh + 10, 255);
    let max_pc = min_int(spec_pixel_clock(width, height, refresh) / 10_000_000 + 1, 255);
    seq![0x00u8, 0x00u8, 0x00u8, 0xFDu8, 0x00u8, min_v as u8, max_v as u8, 0x1Eu8, 0x50u8, max_pc as u8, 0x0Au8]
        + repeat(0x20u8, 7)
}

/// Dummy descriptor (bytes 108-125).
pub open spec fn dummy_descriptor_spec() -> Seq<u8> {
    seq![0x00u8, 0x00u8, 0x00u8, 0x10u8, 0x00u8] + repeat(0x00u8, 13)
}

/// The first 127 bytes of the EDID generated for `width x height @ refresh`;
/// zero inputs are raised to 1 first. The last byte is the checksum.
pub open spec fn edid_body_spec(width: int, height: int, refresh: int) -> Seq<u8> {
    let w = max_int(width, 1);
    let h = max_int(height, 1);
    let r = max_int(refresh, 1);
    ident_spec()
        + basic_params_spec(w, h)
        + repeat(0x00u8, 13)
        + repeat(0x01u8, 16)
        + dtd_spec(w, h, r)
        + name_descriptor_spec()
        + range_descriptor_spec(w, h, r)
        + dummy_descriptor_spec()
        + seq![0x00u8]
}

/// Sum of the bytes of `s`.
pub open spec fn byte_sum(s: Seq<u8>) -> int
    decreases s.len(),
{
    if s.len() == 0 {
        0
    } else {
        byte_sum(s.drop_last()) + s.last()
    }
}

/// The checksum byte that makes the bytes of `body` plus itself sum to 0 mod 256.
pub open spec fn checksum_byte(body: Seq<u8>) -> u8 {
    ((256 - byte_sum(body) % 256) % 256) as u8
}

proof fn lemma_mul3_bound(a: int, b: int, c: int, ma: int, mb: int, mc: int)
    by (nonlinear_arith)
    requires
        0 <= a <= ma,
        0 <= b <= mb,
        0 <= c <= mc,
    ensures
        0 <= a * b * c <= ma * mb * mc,
        0 <= a * b <= ma * mb,
{
}

proof fn lemma_mul_ge(x: int, r: int)
    by (nonlinear_arith)
    requires
        x >= 0,
        r >= 1,
    ensures
        x * r >= x,
{
}

/// Estimated pixel clock in Hz, capped at `u32::MAX`.
pub fn estimate_pixel_clock(width: u32, height: u32, refresh: u32) -> (pc: u32)
    ensures
        pc == spec_pixel_clock(width as int, height as int, refresh as int),
{
    let h_blank: u64 = if width <= 1920 {
        280
    } else if width <= 2560 {
        160
    } else {
        560
    };
    let v_blank: u64 = if height <= 1080 {
        45
    } else if height <= 1440 {
        41
    } else {
        90
    };
    let a: u64 = width as u64 + h_blank;
    let b: u64 = height as u64 + v_blank;
    let ab: u64 = match a.checked_mul(b) {
        Some(x) => x,
        None => u64::MAX,
    };
    let abr: u64 = match ab.checked_mul(refresh as u64) {
        Some(x) => x,
        None => u64::MAX,
    };
    proof {
        let t = (a as int) * (b as int) * (refresh as int);
        if a as int * b as int > u64::MAX as int {
            if refresh >= 1 {
                lemma_mul_ge(a as int * b as int, refresh as int);
                lemma_mul_ge(u64::MAX as int, refresh as int);
            } else {
                assert(t == 0) by (nonlinear_arith)
                    requires t == (a as int * b as int) * refresh as int, refresh == 0;
            }
        }
    }
    if abr > u32::MAX as u64 {
        u32::MAX
    } else {
        abr as u32
    }
}

/// Appends the 18-byte Detailed Timing Descriptor for the given mode to `buf`.
/// Active sizes above the 12-bit limit are clamped, and the pixel clock is
/// capped at the 16-bit maximum.
pub fn write_dtd(buf: &mut Vec<u8>, width: u32, height: u32, refresh: u32)
    ensures
        final(buf)@ == old(buf)@ + dtd_spec(width as int, height as int, refresh as int),
{
    let w: u32 = if width < EDID_DTD_MAX_RESOLUTION { width } else { EDID_DTD_MAX_RESOLUTION };
    let h: u32 = if height < EDID_DTD_MAX_RESOLUTION { height } else { EDID_DTD_MAX_RESOLUTION };
    let (h_blank, h_front_porch, h_sync): (u32, u32, u32) = if w <= 1920 {
        (280, 88, 44)
    } else if w <= 2560 {
        (160, 48, 32)
    } else {
        (560, 176, 88)
    };
    let (v_blank, v_front_porch, v_sync): (u32, u32, u32) = if h <= 1080 {
        (45, 4, 5)
    } else if h <= 1440 {
        (41, 3, 5)
    } else {
        (90, 8, 10)
    };
    let h_total: u64 = w as u64 + h_blank as u64;
    let v_total: u64 = h as u64 + v_blank as u64;
    proof {
        lemma_mul3_bound(h_total as int, v_total as int, refresh as int, 4655, 4185, u32::MAX as int);
    }
    let total: u64 = h_total * v_total * refresh as u64;
    let pc_raw: u64 = total / 10_000;
    let pixel_clock_10khz: u64 = if pc_raw < EDID_DTD_MAX_PIXEL_CLOCK_10KHZ {
        pc_raw
    } else {
        EDID_DTD_MAX_PIXEL_CLOCK_10KHZ
    };
    let h_mm: u32 = w * 254 / 960;
    let v_mm: u32 = h * 254 / 960;
    let mut dtd: Vec<u8> = vec![
        (pixel_clock_10khz % 256) as u8,
        (pixel_clock_10khz / 256 % 256) as u8,
        (w % 256) as u8,
        (h_blank % 256) as u8,
        ((w / 256 % 16) * 16 + h_blank / 256 % 16) as u8,
        (h % 256) as u8,
        (v_blank % 256) as u8,
        ((h / 256 % 16) * 16 + v_blank / 256 % 16) as u8,
        (h_front_porch % 256) as u8,
        (h_sync % 256) as u8,
        ((v_front_porch % 16) * 16 + v_sync % 16) as u8,
        ((h_front_porch / 256 % 4) * 64 + (h_sync / 256 % 4) * 16 + (v_front_porch / 16 % 4) * 4
            + v_sync / 16 % 4) as u8,
        (h_mm % 256) as u8,
        (v_mm % 256) as u8,
        ((h_mm / 256 % 16) * 16 + v_mm / 256 % 16) as u8,
        0,
        0,
        0x1E,
    ];
    proof {
        assert(total as int == (w as int + h_blank as int) * (h as int + v_blank as int) * refresh as int);
        assert(dtd@ =~= dtd_spec(width as int, height as int, refresh as int));
    }
    buf.append(&mut dtd);
}

/// Appends `n` copies of `b` to `buf`.
fn push_repeat(buf: &mut Vec<u8>, b: u8, n: usize)
    ensures
        final(buf)@ == old(buf)@ + repeat(b, n as nat),
{
    let mut i: usize = 0;
    while i < n
        invariant
            i <= n,
            buf@ == old(buf)@ + repeat(b, i as nat),
        decreases n - i,
    {
        buf.push(b);
        i = i + 1;
        proof {
            assert(buf@ =~= old(buf)@ + repeat(b, i as nat));
        }
    }
}

proof fn lemma_checksum_closes(s: int)
    requires
        s >= 0,
    ensures
        (s + (256 - s % 256) % 256) % 256 == 0,
{
    let q = s / 256;
    let r = s % 256;
    assert(s == 256 * q + r && 0 <= r < 256) by {
        vstd::arithmetic::div_mod::lemma_fundamental_div_mod(s, 256);
    }
    if r == 0 {
        assert((256 - r) % 256 == 0);
        assert(s % 256 == 0);
    } else {
        assert((256 - r) % 256 == 256 - r);
        assert(s + (256 - r) == 256 * (q + 1));
        vstd::arithmetic::div_mod::lemma_mod_multiples_basic(q + 1, 256);
        assert((256 * (q + 1)) % 256 == 0) by {
            assert(256 * (q + 1) == (q + 1) * 256) by (nonlinear_arith);
        }
    }
}

proof fn lemma_byte_sum_bound(s: Seq<u8>)
    ensures
        0 <= byte_sum(s) <= 255 * s.len(),
    decreases s.len(),
{
    if s.len() > 0 {
        lemma_byte_sum_bound(s.drop_last());
    }
}

/// Header, manufacturer "RHZ", product code, serial, week/year, version 1.3.
fn ident_bytes() -> (v: Vec<u8>)
    ensures
        v@ == ident_spec(),
{
    let v: Vec<u8> = vec![
        0x00, 0xFF, 0xFF, 0xFF, 0xFF, 0xFF, 0xFF, 0x00,
        0x49, 0x1A,
        0x01, 0x00,
        0x01, 0x00, 0x00, 0x00,
        0x01, 0x22,
        0x01, 0x03,
    ];
    proof {
        assert(v@ =~= ident_spec());
    }
    v
}

/// Basic display parameters: digital input, size in cm, gamma 2.2, features.
fn basic_params_bytes(width: u32, height: u32) -> (v: Vec<u8>)
    ensures
        v@ == basic_params_spec(width as int, height as int),
{
    let w_cm_raw: u64 = width as u64 * 254 / 9600;
    let h_cm_raw: u64 = height as u64 * 254 / 9600;
    let w_cm: u64 = if w_cm_raw < 1 { 1 } else if w_cm_raw > 255 { 255 } else { w_cm_raw };
    let h_cm: u64 = if h_cm_raw < 1 { 1 } else if h_cm_raw > 255 { 255 } else { h_cm_raw };
    let v: Vec<u8> = vec![0x80, w_cm as u8, h_cm as u8, 0x78, 0x0A];
    proof {
        assert(v@ =~= basic_params_spec(width as int, height as int));
    }
    v
}

/// Monitor name descriptor "RustHorizon" terminated by LF and padded.
fn name_descriptor_bytes() -> (v: Vec<u8>)
    ensures
        v@ == name_descriptor_spec(),
{
    let v: Vec<u8> = vec![
        0x00, 0x00, 0x00, 0xFC, 0x00,
        0x52, 0x75, 0x73, 0x74, 0x48, 0x6F, 0x72, 0x69, 0x7A, 0x6F, 0x6E,
        0x0A, 0x20,
    ];
    proof {
        assert(v@ =~= name_descriptor_spec());
    }
    v
}

/// Monitor range limits descriptor.
fn range_descriptor_bytes(width: u32, height: u32, refresh: u32) -> (v: Vec<u8>)
    requires
        refresh <= u32::MAX - 10,
    ensures
        v@ == range_descriptor_spec(width as int, height as int, refresh as int),
{
    let min_v: u32 = if refresh >= 11 { refresh - 10 } else { 1 };
    let max_v: u32 = if refresh + 10 < 255 { refresh + 10 } else { 255 };
    let pixel_clock_hz: u32 = estimate_pixel_clock(width, height, refresh);
    let max_pc: u32 = if pixel_clock_hz / 10_000_000 + 1 < 255 {
        pixel_clock_hz / 10_000_000 + 1
    } else {
        255
    };
    let mut v: Vec<u8> = vec![
        0x00, 0x00, 0x00, 0xFD, 0x00,
        min_v as u8, max_v as u8, 0x1E, 0x50, max_pc as u8, 0x0A,
    ];
    push_repeat(&mut v, 0x20, 7);
    proof {
        assert(v@ =~= range_descriptor_spec(width as int, height as int, refresh as int));
    }
    v
}

/// Dummy descriptor.
fn dummy_descriptor_bytes() -> (v: Vec<u8>)
    ensures
        v@ == dummy_descriptor_spec(),
{
    let mut v: Vec<u8> = vec![0x00, 0x00, 0x00, 0x10, 0x00];
    push_repeat(&mut v, 0x00, 13);
    proof {
        assert(v@ =~= dummy_descriptor_spec());
    }
    v
}

/// The first 127 bytes of the EDID, before the checksum.
fn edid_body(width: u32, height: u32, refresh: u32) -> (body: Vec<u8>)
    requires
        1 <= width,
        1 <= height,
        1 <= refresh <= u32::MAX - 10,
    ensures
        body@ == edid_body_spec(width as int, height as int, refresh as int),
{
    let mut body = ident_bytes();
    let mut basic = basic_params_bytes(width, height);
    body.append(&mut basic);
    push_repeat(&mut body, 0x00, 13);
    push_repeat(&mut body, 0x01, 16);
    write_dtd(&mut body, width, height, refresh);
    let mut name = name_descriptor_bytes();
    body.append(&mut name);
    let mut range = range_descriptor_bytes(width, height, refresh);
    body.append(&mut range);
    let mut dummy = dummy_descriptor_bytes();
    body.append(&mut dummy);
    body.push(0x00);
    proof {
        assert(body@ =~= edid_body_spec(width as int, height as int, refresh as int));
    }
    body
}

/// Generate a valid 128-byte EDID for the given resolution.
/// Manufacturer ID: "RHZ". Zero inputs are raised to 1 so that the timing
/// descriptor never carries a zero size or pixel clock.
pub fn generate_edid(width: u32, height: u32, refresh: u32) -> (edid: [u8; 128])
    requires
        refresh <= u32::MAX - 10,
    ensures
        edid@.take(127) == edid_body_spec(width as int, height as int, refresh as int),
        edid@[127] == checksum_byte(edid_body_spec(width as int, height as int, refresh as int)),
        byte_sum(edid@) % 256 == 0,
{
    let w: u32 = if width > 1 { width } else { 1 };
    let h: u32 = if height > 1 { height } else { 1 };
    let r: u32 = if refresh > 1 { refresh } else { 1 };
    let body = edid_body(w, h, r);
    let ghost spec_body = edid_body_spec(width as int, height as int, refresh as int);
    assert(body@ == spec_body);

    let mut edid = [0u8; 128];
    let mut sum: u32 = 0;
    let mut i: usize = 0;
    while i < 127
        invariant
            i <= 127,
            body@ == spec_body,
            spec_body.len() == 127,
            edid@.len() == 128,
            edid@.take(i as int) == body@.take(i as int),
            sum == byte_sum(body@.take(i as int)),
            sum <= 255 * i,
        decreases 127 - i,
    {
        proof {
            assert(body@.take(i + 1).drop_last() =~= body@.take(i as int));
        }
        edid[i] = body[i];
        sum = sum + body[i] as u32;
        i = i + 1;
        proof {
            assert(edid@.take(i as int) =~= body@.take(i as int));
        }
    }
    edid[127] = ((256 - sum % 256) % 256) as u8;
    proof {
        assert(body@.take(127) =~= body@);
        assert(edid@.take(127) =~= body@);
        assert(edid@.drop_last() =~= body@);
        lemma_checksum_closes(sum as int);
    }
    edid
}

/// Horizontal active size as a DTD parser reads it from an EDID.
pub open spec fn dtd_h_active(e: Seq<u8>) -> int {
    e[56] + (e[58] / 16) * 256
}

/// Vertical active size as a DTD parser reads it from an EDID.
pub open spec fn dtd_v_active(e: Seq<u8>) -> int {
    e[59] + (e[61] / 16) * 256
}

/// Horizontal blanking as a DTD parser reads it from an EDID.
pub open spec fn dtd_h_blank(e: Seq<u8>) -> int {
    e[57] + (e[58] % 16) * 256
}

/// Vertical blanking as a DTD parser reads it from an EDID.
pub open spec fn dtd_v_blank(e: Seq<u8>) -> int {
    e[60] + (e[61] % 16) * 256
}

/// DTD pixel clock (10 kHz units) as a parser reads it from an EDID.
pub open spec fn dtd_pixel_clock(e: Seq<u8>) -> int {
    e[54] + e[55] * 256
}

proof fn lemma_split12(x: int, y: int)
    requires
        0 <= x < 4096,
        0 <= y < 4096,
    ensures
        ((x % 256) as u8) as int == x % 256,
        (((x / 256 % 16) * 16 + y / 256 % 16) as u8) as int == (x / 256) * 16 + y / 256,
        (x % 256) + (((x / 256) * 16 + y / 256) / 16) * 256 == x,
        (y % 256) + (((x / 256) * 16 + y / 256) % 16) * 256 == y,
{
    assert(0 <= x / 256 < 16);
    assert(0 <= y / 256 < 16);
    assert(x == (x / 256) * 256 + x % 256);
    assert(y == (y / 256) * 256 + y % 256);
    let c = (x / 256) * 16 + y / 256;
    assert(c / 16 == x / 256 && c % 16 == y / 256) by {
        vstd::arithmetic::div_mod::lemma_fundamental_div_mod_converse(c, 16, x / 256, y / 256);
    }
}

/// The preferred timing of a generated EDID reads back as the requested mode:
/// the active size is the requested size (at least 1, at most the 12-bit
/// limit), the blanking intervals are the standard ones (never zero), and the
/// pixel clock is the capped estimate, never zero.
pub proof fn lemma_edid_dtd_reads_back(width: u32, height: u32, refresh: u32)
    ensures
        ({
            let e = edid_body_spec(width as int, height as int, refresh as int);
            let w = min_int(max_int(width as int, 1), EDID_DTD_MAX_RESOLUTION as int);
            let h = min_int(max_int(height as int, 1), EDID_DTD_MAX_RESOLUTION as int);
            let r = max_int(refresh as int, 1);
            &&& e.len() == 127
            &&& dtd_h_active(e) == w
            &&& dtd_v_active(e) == h
            &&& dtd_h_blank(e) == h_timing(w).0
            &&& dtd_v_blank(e) == v_timing(h).0
            &&& dtd_h_blank(e) > 0
            &&& dtd_v_blank(e) > 0
            &&& dtd_pixel_clock(e) == dtd_pixel_clock_10khz(w, h, r)
            &&& dtd_pixel_clock(e) > 0
        }),
{
    let e = edid_body_spec(width as int, height as int, refresh as int);
    let w0 = max_int(width as int, 1);
    let h0 = max_int(height as int, 1);
    let r = max_int(refresh as int, 1);
    let w = min_int(w0, EDID_DTD_MAX_RESOLUTION as int);
    let h = min_int(h0, EDID_DTD_MAX_RESOLUTION as int);
    let d = dtd_spec(w0, h0, r);
    let prefix = ident_spec() + basic_params_spec(w0, h0) + repeat(0x00u8, 13) + repeat(0x01u8, 16);
    assert(prefix.len() == 54);
    assert(e[54] == d[0] && e[55] == d[1] && e[56] == d[2] && e[57] == d[3] && e[58] == d[4]
        && e[59] == d[5] && e[60] == d[6] && e[61] == d[7]);
    lemma_split12(w, h_timing(w).0);
    lemma_split12(h, v_timing(h).0);
    let pc = dtd_pixel_clock_10khz(w, h, r);
    lemma_mul3_bound(1, 1, 1, w + h_timing(w).0, h + v_timing(h).0, r);
    assert((w + h_timing(w).0) * (h + v_timing(h).0) * r >= 281 * 46) by (nonlinear_arith)
        requires
            w + h_timing(w).0 >= 281,
            h + v_timing(h).0 >= 46,
            r >= 1,
    ;
    assert(1 <= pc <= 65535);
    assert(pc == (pc % 256) + (pc / 256) * 256);
    assert(((pc % 256) as u8) as int == pc % 256);
    assert(((pc / 256 % 256) as u8) as int == pc / 256);
}

/// The image size of the preferred timing of a generated EDID is the size of
/// the active area at 96 DPI, in mm: width and height each read back from
/// their own low byte and their own nibble of the shared byte (the width's
/// the high nibble, the height's the low one).
pub proof fn lemma_edid_dtd_image_size(width: u32, height: u32, refresh: u32)
    ensures
        ({
            let e = edid_body_spec(width as int, height as int, refresh as int);
            let w = min_int(max_int(width as int, 1), EDID_DTD_MAX_RESOLUTION as int);
            let h = min_int(max_int(height as int, 1), EDID_DTD_MAX_RESOLUTION as int);
            &&& e[66] + (e[68] / 16) * 256 == w * 254 / 960
            &&& e[67] + (e[68] % 16) * 256 == h * 254 / 960
        }),
{
    let e = edid_body_spec(width as int, height as int, refresh as int);
    let w0 = max_int(width as int, 1);
    let h0 = max_int(height as int, 1);
    let r = max_int(refresh as int, 1);
    let w = min_int(w0, EDID_DTD_MAX_RESOLUTION as int);
    let h = min_int(h0, EDID_DTD_MAX_RESOLUTION as int);
    let d = dtd_spec(w0, h0, r);
    let prefix = ident_spec() + basic_params_spec(w0, h0) + repeat(0x00u8, 13) + repeat(0x01u8, 16);
    assert(prefix.len() == 54);
    assert(e[66] == d[12] && e[67] == d[13] && e[68] == d[14]);
    let hm = w * 254 / 960;
    let vm = h * 254 / 960;
    assert(0 <= hm < 4096 && 0 <= vm < 4096) by (nonlinear_arith)
        requires
            1 <= w <= 4095,
            1 <= h <= 4095,
            hm == w * 254 / 960,
            vm == h * 254 / 960,
    ;
    lemma_split12(hm, vm);
    lemma_split12(vm, vm);
}

/// Range limits of a generated EDID, for refresh rates a display can have:
/// the vertical range contains the refresh rate and its minimum is below its
/// maximum, and the horizontal range is 30-80 kHz.
pub proof fn lemma_edid_range_limits(width: u32, height: u32, refresh: u32)
    requires
        refresh <= 245,
    ensures
        ({
            let e = edid_body_spec(width as int, height as int, refresh as int);
            let r = max_int(refresh as int, 1);
            &&& e[95] <= r <= e[96]
            &&& e[95] < e[96]
            &&& e[97] == 30
            &&& e[98] == 80
        }),
{
    let e = edid_body_spec(width as int, height as int, refresh as int);
    let w0 = max_int(width as int, 1);
    let h0 = max_int(height as int, 1);
    let r = max_int(refresh as int, 1);
    let rd = range_descriptor_spec(w0, h0, r);
    let prefix = ident_spec() + basic_params_spec(w0, h0) + repeat(0x00u8, 13) + repeat(0x01u8, 16)
        + dtd_spec(w0, h0, r) + name_descriptor_spec();
    assert(prefix.len() == 90);
    assert(e[95] == rd[5] && e[96] == rd[6] && e[97] == rd[7] && e[98] == rd[8]);
}

/// Two modes whose encodable sizes differ get EDIDs that differ.
pub proof fn lemma_edid_distinguishes_sizes(w1: u32, h1: u32, r1: u32, w2: u32, h2: u32, r2: u32)
    requires
        min_int(max_int(w1 as int, 1), 4095) != min_int(max_int(w2 as int, 1), 4095)
            || min_int(max_int(h1 as int, 1), 4095) != min_int(max_int(h2 as int, 1), 4095),
    ensures
        edid_body_spec(w1 as int, h1 as int, r1 as int) != edid_body_spec(w2 as int, h2 as int, r2 as int),
{
    lemma_edid_dtd_reads_back(w1, h1, r1);
    lemma_edid_dtd_reads_back(w2, h2, r2);
}

/// Every generated EDID is one that display servers accept: the colour
/// characteristics (bytes 25-34) are zero, the screen size in cm is never
/// zero, there is no extension block, and the three display descriptors
/// carry the distinct tags monitor name, range limits and dummy.
pub proof fn lemma_edid_compositor_safe(width: u32, height: u32, refresh: u32)
    ensures
        ({
            let e = edid_body_spec(width as int, height as int, refresh as int);
            &&& forall|i: int| 25 <= i < 35 ==> e[i] == 0
            &&& 1 <= e[21] && 1 <= e[22]
            &&& e[20] == 0x80
            &&& e[23] == 0x78
            &&& e[75] == 0xFC && e[93] == 0xFD && e[111] == 0x10
            &&& e[126] == 0
        }),
{
    let e = edid_body_spec(width as int, height as int, refresh as int);
    let w0 = max_int(width as int, 1);
    let h0 = max_int(height as int, 1);
    let r = max_int(refresh as int, 1);
    let a = ident_spec() + basic_params_spec(w0, h0);
    let b = a + repeat(0x00u8, 13);
    let c = b + repeat(0x01u8, 16) + dtd_spec(w0, h0, r);
    let d = c + name_descriptor_spec();
    let f = d + range_descriptor_spec(w0, h0, r);
    let g = f + dummy_descriptor_spec();
    assert(a.len() == 25);
    assert(c.len() == 72);
    assert(d.len() == 90);
    assert(f.len() == 108);
    assert(g.len() == 126);
    assert forall|i: int| 25 <= i < 35 implies e[i] == 0 by {
        assert(e[i] == b[i]);
    }
    assert(e[21] == a[21] && e[22] == a[22] && e[20] == a[20] && e[23] == a[23]);
    assert(e[75] == d[75] && e[93] == f[93] && e[111] == g[111]);
}

} // verus!
