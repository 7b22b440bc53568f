//! Reading the X display configuration for EVDI displays: DRM card and
//! connector names from sysfs, the primary output and an output's geometry
//! from `xrandr --query`, and the RandR monitors from `xrandr --listmonitors`.
use crate::decimal::{
    all_digits, decimal_spec, i32_decimal_spec, i32_to_decimal, is_digit, parse_i32, parse_i32_spec, parse_u32,
    parse_unsigned_spec, u32_to_decimal,
};
use crate::text::{seq_contains_seq, seq_starts_with, str_contains, str_eq, str_starts_with};
use crate::tokens::{
    find_ws_spec, lemma_rfind_char_in_range, str_find_ws, str_trim_start_marks, to_chars,
    trim_start_marks_spec,
    find_char_spec, find_spec, lemma_find_from_found, lines_spec, rfind_char_spec, split_spec, str_find, str_find_char,
    str_lines, str_rfind_char, str_split_char, str_split_whitespace, str_trim, trim_spec, views,
    words_spec,
};
use crate::virtual_display::DRM_HOTPLUG_SETTLE_MS;
use vstd::prelude::*;

verus! {

/// The characters `card`.
pub open spec fn card_word() -> Seq<char> {
    seq!['c', 'a', 'r', 'd']
}

/// The characters `connected`.
pub open spec fn connected_word() -> Seq<char> {
    seq!['c', 'o', 'n', 'n', 'e', 'c', 't', 'e', 'd']
}

/// The characters `primary`.
pub open spec fn primary_word() -> Seq<char> {
    seq!['p', 'r', 'i', 'm', 'a', 'r', 'y']
}

/// The card number of a DRM sysfs entry named `card` followed by digits
/// only; a number too large for `i32` reads as -1. Connector entries such as
/// `card0-DVI-I-1` are not cards.
pub open spec fn drm_card_id_spec(e: Seq<char>) -> Option<i32> {
    if seq_starts_with(e, card_word()) && all_digits(e.skip(4)) {
        Some(
            match parse_i32_spec(e.skip(4)) {
                Some(v) => v,
                None => -1i32,
            },
        )
    } else {
        None
    }
}

/// Whether every character of `s` is an ASCII digit.
fn str_all_digits(s: &str) -> (r: bool)
    ensures
        r == all_digits(s@),
{
    let n = s.unicode_len();
    let mut i: usize = 0;
    while i < n
        invariant
            i <= n,
            n == s@.len(),
            forall|j: int| 0 <= j < i ==> is_digit(#[trigger] s@[j]),
        decreases n - i,
    {
        let c = s.get_char(i);
        if !((c as u32) >= 48 && (c as u32) <= 57) {
            assert(!is_digit(s@[i as int]));
            return false;
        }
        i = i + 1;
    }
    true
}

/// The card number of a DRM sysfs entry name.
pub fn drm_card_id(entry: &str) -> (r: Option<i32>)
    ensures
        r == drm_card_id_spec(entry@),
{
    proof {
        reveal_strlit("card");
        assert("card"@ =~= card_word());
    }
    if !str_starts_with(entry, "card") {
        return None;
    }
    let n = entry.unicode_len();
    let num = entry.substring_char(4, n);
    assert(num@ == entry@.skip(4));
    if !str_all_digits(num) {
        return None;
    }
    match parse_i32(num) {
        Some(v) => Some(v),
        None => Some(-1),
    }
}

/// The card number of a `/dev/dri` device node named `card` followed by a
/// number (as `str::parse::<i32>` reads it).
pub open spec fn dev_dri_card_id_spec(e: Seq<char>) -> Option<i32> {
    if seq_starts_with(e, card_word()) {
        parse_i32_spec(e.skip(4))
    } else {
        None
    }
}

/// The card number of a `/dev/dri` device node name.
pub fn dev_dri_card_id(entry: &str) -> (r: Option<i32>)
    ensures
        r == dev_dri_card_id_spec(entry@),
{
    proof {
        reveal_strlit("card");
        assert("card"@ =~= card_word());
    }
    if !str_starts_with(entry, "card") {
        return None;
    }
    let n = entry.unicode_len();
    let num = entry.substring_char(4, n);
    assert(num@ == entry@.skip(4));
    parse_i32(num)
}

/// The number of EVDI devices in the content of `/sys/devices/evdi/count`:
/// the trimmed content read as a number, 0 when it is not one.
pub fn evdi_device_count(content: &str) -> (r: u32)
    ensures
        r as nat == match parse_unsigned_spec(trim_spec(content@), u32::MAX as nat) {
            Some(v) => v,
            None => 0,
        },
{
    match parse_u32(str_trim(content)) {
        Some(v) => v,
        None => 0,
    }
}

/// The sysfs prefix of the connectors of card `id`: `card<id>-`.
pub open spec fn card_prefix_spec(id: i32) -> Seq<char> {
    card_word() + i32_decimal_spec(id) + seq!['-']
}

/// The connector name of a DRM sysfs entry of card `id`, such as `DVI-I-1`
/// for `card1-DVI-I-1`.
pub open spec fn card_connector_spec(e: Seq<char>, id: i32) -> Option<Seq<char>> {
    let p = card_prefix_spec(id);
    if seq_starts_with(e, p) {
        Some(e.skip(p.len() as int))
    } else {
        None
    }
}

/// The connector name of a DRM sysfs entry of card `id`.
pub fn card_connector(entry: &str, id: i32) -> (r: Option<String>)
    ensures
        match card_connector_spec(entry@, id) {
            Some(c) => r matches Some(s) && s@ == c,
            None => r is None,
        },
{
    let mut prefix = "card".to_owned();
    let digits = i32_to_decimal(id);
    prefix.append(digits.as_str());
    prefix.append("-");
    proof {
        reveal_strlit("card");
        reveal_strlit("-");
        assert(prefix@ =~= card_prefix_spec(id));
    }
    if !str_starts_with(entry, prefix.as_str()) {
        return None;
    }
    let p = prefix.unicode_len();
    let n = entry.unicode_len();
    Some(entry.substring_char(p, n).to_owned())
}

/// Whether the content of a connector's sysfs `status` file says it is connected.
pub fn status_is_connected(status: &str) -> (r: bool)
    ensures
        r == (trim_spec(status@) == connected_word()),
{
    proof {
        reveal_strlit("connected");
        assert("connected"@ =~= connected_word());
    }
    str_eq(str_trim(status), "connected")
}

/// Whether the words of an `xrandr --query` line describe the primary output.
pub open spec fn is_primary_line(w: Seq<Seq<char>>) -> bool {
    w.len() > 2 && w[1] == connected_word() && w[2] == primary_word()
}

/// Whether the words of an `xrandr --query` line describe a connected output
/// other than `evdi`.
pub open spec fn is_other_connected_line(w: Seq<Seq<char>>, evdi: Seq<char>) -> bool {
    w.len() >= 2 && w[1] == connected_word() && w[0] != evdi
}

/// The output named by the first line that describes the primary output.
pub open spec fn first_primary(ls: Seq<Seq<char>>) -> Option<Seq<char>>
    decreases ls.len(),
{
    if ls.len() == 0 {
        None
    } else if is_primary_line(words_spec(ls[0])) {
        Some(words_spec(ls[0])[0])
    } else {
        first_primary(ls.drop_first())
    }
}

/// The output named by the first line that describes a connected output
/// other than `evdi`.
pub open spec fn first_other_connected(ls: Seq<Seq<char>>, evdi: Seq<char>) -> Option<Seq<char>>
    decreases ls.len(),
{
    if ls.len() == 0 {
        None
    } else if is_other_connected_line(words_spec(ls[0]), evdi) {
        Some(words_spec(ls[0])[0])
    } else {
        first_other_connected(ls.drop_first(), evdi)
    }
}

/// The output next to which an EVDI output is placed: the primary output,
/// else the first connected output that is not the EVDI one.
pub open spec fn primary_output_spec(out: Seq<char>, evdi: Seq<char>) -> Option<Seq<char>> {
    match first_primary(lines_spec(out)) {
        Some(p) => Some(p),
        None => first_other_connected(lines_spec(out), evdi),
    }
}

/// The output of `xrandr --query` to place the EVDI output `evdi_name` next to.
pub fn primary_output(xrandr_out: &str, evdi_name: &str) -> (r: Option<String>)
    ensures
        match primary_output_spec(xrandr_out@, evdi_name@) {
            Some(p) => r matches Some(s) && s@ == p,
            None => r is None,
        },
{
    proof {
        reveal_strlit("connected");
        reveal_strlit("primary");
        assert("connected"@ =~= connected_word());
        assert("primary"@ =~= primary_word());
    }
    let lines = str_lines(xrandr_out);
    let ghost ls = lines_spec(xrandr_out@);
    let n = lines.len();
    let mut i: usize = 0;
    proof {
        assert(ls.skip(0) =~= ls);
    }
    while i < n
        invariant
            i <= n,
            n == lines@.len(),
            views(lines@) == ls,
            ls == lines_spec(xrandr_out@),
            "connected"@ == connected_word(),
            "primary"@ == primary_word(),
            first_primary(ls) == first_primary(ls.skip(i as int)),
        decreases n - i,
    {
        let words = str_split_whitespace(lines[i].as_str());
        let ghost w = words_spec(ls[i as int]);
        proof {
            assert(ls[i as int] == lines@[i as int]@);
            assert(views(words@) == w);
            assert(w.len() == words@.len());
            assert(ls.skip(i as int)[0] == ls[i as int]);
            assert(ls.skip(i as int).drop_first() =~= ls.skip(i + 1));
            if words@.len() > 2 {
                assert(w[0] == words@[0]@);
                assert(w[1] == words@[1]@);
                assert(w[2] == words@[2]@);
            }
        }
        if words.len() > 2 && str_eq(words[1].as_str(), "connected") && str_eq(words[2].as_str(), "primary") {
            let r = words[0].clone();
            proof {
                assert(is_primary_line(w));
                assert(first_primary(ls.skip(i as int)) == Some(w[0]));
                assert(ls == lines_spec(xrandr_out@));
                assert(primary_output_spec(xrandr_out@, evdi_name@) == Some(w[0]));
                assert(r@ == w[0]);
            }
            return Some(r);
        }
        proof {
            assert(!is_primary_line(w));
            assert(first_primary(ls.skip(i as int)) == first_primary(ls.skip(i + 1)));
        }
        i = i + 1;
    }
    proof {
        assert(ls.skip(n as int).len() == 0);
        assert(ls.skip(0) =~= ls);
    }
    let mut j: usize = 0;
    while j < n
        invariant
            j <= n,
            n == lines@.len(),
            views(lines@) == ls,
            ls == lines_spec(xrandr_out@),
            "connected"@ == connected_word(),
            first_primary(ls) is None,
            first_other_connected(ls, evdi_name@) == first_other_connected(ls.skip(j as int), evdi_name@),
        decreases n - j,
    {
        let words = str_split_whitespace(lines[j].as_str());
        let ghost w = words_spec(ls[j as int]);
        proof {
            assert(ls[j as int] == lines@[j as int]@);
            assert(views(words@) == w);
            assert(w.len() == words@.len());
            assert(ls.skip(j as int)[0] == ls[j as int]);
            assert(ls.skip(j as int).drop_first() =~= ls.skip(j + 1));
            if words@.len() >= 2 {
                assert(w[0] == words@[0]@);
                assert(w[1] == words@[1]@);
            }
        }
        if words.len() >= 2 && str_eq(words[1].as_str(), "connected") && !str_eq(words[0].as_str(), evdi_name) {
            let r = words[0].clone();
            proof {
                assert(is_other_connected_line(w, evdi_name@));
                assert(first_other_connected(ls.skip(j as int), evdi_name@) == Some(w[0]));
                assert(ls == lines_spec(xrandr_out@));
                assert(primary_output_spec(xrandr_out@, evdi_name@) == Some(w[0]));
                assert(r@ == w[0]);
            }
            return Some(r);
        }
        proof {
            assert(!is_other_connected_line(w, evdi_name@));
            assert(first_other_connected(ls.skip(j as int), evdi_name@) == first_other_connected(ls.skip(j + 1), evdi_name@));
        }
        j = j + 1;
    }
    proof {
        assert(ls.skip(n as int).len() == 0);
    }
    None
}

/// Position, size and physical size of an output.
#[derive(Debug, Clone, Copy, PartialEq, Eq)]
pub struct OutputGeometry {
    pub x: i32,
    pub y: i32,
    pub width: u32,
    pub height: u32,
    pub width_mm: u32,
    pub height_mm: u32,
}

/// What one word of an `xrandr --query` line says of the geometry.
pub enum PartGeometry {
    /// The word is no `WxH+X+Y` geometry.
    NotGeometry,
    /// The word looks like a geometry but a number in it does not parse.
    Invalid,
    /// The geometry.
    Found(OutputGeometry),
}

/// The characters `mm x `.
pub open spec fn mm_x_word() -> Seq<char> {
    seq!['m', 'm', ' ', 'x', ' ']
}

/// The characters `mm`.
pub open spec fn mm_word() -> Seq<char> {
    seq!['m', 'm']
}

/// The characters ` connected`.
pub open spec fn space_connected_word() -> Seq<char> {
    seq![' '] + connected_word()
}

/// Physical size in mm of `px` pixels at about 96 DPI.
pub open spec fn default_mm(px: nat) -> nat {
    px * 254 / 96 / 10
}

/// The physical width: the number before `mm x ` in the line, else the
/// size at 96 DPI.
pub open spec fn width_mm_spec(line: Seq<char>, w: nat) -> nat {
    match find_spec(line, mm_x_word()) {
        Some(i) => {
            let before = line.take(i);
            match rfind_char_spec(before, ' ') {
                Some(sp) => match parse_unsigned_spec(before.skip(sp + 1), u32::MAX as nat) {
                    Some(v) => v,
                    None => default_mm(w),
                },
                None => default_mm(w),
            }
        },
        None => default_mm(w),
    }
}

/// The physical height: the number between `mm x ` and the next `mm` in the
/// line, else the size at 96 DPI.
pub open spec fn height_mm_spec(line: Seq<char>, h: nat) -> nat {
    match find_spec(line, mm_x_word()) {
        Some(i) => {
            let after = line.skip(i + 5);
            match find_spec(after, mm_word()) {
                Some(e) => match parse_unsigned_spec(trim_spec(after.take(e)), u32::MAX as nat) {
                    Some(v) => v,
                    None => default_mm(h),
                },
                None => default_mm(h),
            }
        },
        None => default_mm(h),
    }
}

/// `v`, raised to 1.
pub open spec fn at_least_one(v: nat) -> nat {
    if v < 1 {
        1
    } else {
        v
    }
}

/// What the word `part` of the output's line `line` says of the geometry.
pub open spec fn part_geometry(part: Seq<char>, line: Seq<char>) -> PartGeometry {
    match find_char_spec(part, '+') {
        None => PartGeometry::NotGeometry,
        Some(p) => {
            let dims = part.take(p);
            let pos = part.skip(p + 1);
            match find_char_spec(dims, 'x') {
                None => PartGeometry::NotGeometry,
                Some(q) => match (
                    parse_unsigned_spec(dims.take(q), u32::MAX as nat),
                    parse_unsigned_spec(dims.skip(q + 1), u32::MAX as nat),
                ) {
                    (Some(w), Some(h)) => {
                        let pp = split_spec(pos, '+');
                        if pp.len() < 2 {
                            PartGeometry::NotGeometry
                        } else {
                            match (parse_i32_spec(pp[0]), parse_i32_spec(pp[1])) {
                                (Some(x), Some(y)) => PartGeometry::Found(
                                    OutputGeometry {
                                        x,
                                        y,
                                        width: w as u32,
                                        height: h as u32,
                                        width_mm: at_least_one(width_mm_spec(line, w)) as u32,
                                        height_mm: at_least_one(height_mm_spec(line, h)) as u32,
                                    },
                                ),
                                _ => PartGeometry::Invalid,
                            }
                        }
                    },
                    _ => PartGeometry::Invalid,
                },
            }
        },
    }
}

/// The geometry given by the first word of `parts` that is a geometry.
pub open spec fn line_geometry(parts: Seq<Seq<char>>, line: Seq<char>) -> Option<OutputGeometry>
    decreases parts.len(),
{
    if parts.len() == 0 {
        None
    } else {
        match part_geometry(parts[0], line) {
            PartGeometry::NotGeometry => line_geometry(parts.drop_first(), line),
            PartGeometry::Invalid => None,
            PartGeometry::Found(g) => Some(g),
        }
    }
}

/// The first line that starts with `name` and says ` connected`.
pub open spec fn first_output_line(ls: Seq<Seq<char>>, name: Seq<char>) -> Option<Seq<char>>
    decreases ls.len(),
{
    if ls.len() == 0 {
        None
    } else if seq_starts_with(ls[0], name) && seq_contains_seq(ls[0], space_connected_word()) {
        Some(ls[0])
    } else {
        first_output_line(ls.drop_first(), name)
    }
}

/// The geometry of output `name` in the output of `xrandr --query`: read
/// from the first line about it that says it is connected.
pub open spec fn output_geometry_spec(out: Seq<char>, name: Seq<char>) -> Option<OutputGeometry> {
    match first_output_line(lines_spec(out), name) {
        Some(l) => line_geometry(words_spec(l), l),
        None => None,
    }
}

/// Physical width and height in mm read from an output's line.
fn mm_sizes(line: &str, w: u32, h: u32) -> (r: (u32, u32))
    ensures
        r.0 as nat == width_mm_spec(line@, w as nat),
        r.1 as nat == height_mm_spec(line@, h as nat),
{
    proof {
        reveal_strlit("mm x ");
        reveal_strlit("mm");
        assert("mm x "@ =~= mm_x_word());
        assert("mm"@ =~= mm_word());
    }
    let wdef: u64 = (w as u64) * 254 / 96 / 10;
    let hdef: u64 = (h as u64) * 254 / 96 / 10;
    let mut wmm: u32 = wdef as u32;
    let mut hmm: u32 = hdef as u32;
    match str_find(line, "mm x ") {
        Some(i) => {
            proof {
                lemma_find_from_found(line@, mm_x_word(), 0);
            }
            let n = line.unicode_len();
            let before = line.substring_char(0, i);
            assert(before@ =~= line@.take(i as int));
            match str_rfind_char(before, ' ') {
                Some(sp) => {
                    proof {
                        lemma_rfind_char_in_range(before@, ' ');
                    }
                    let num = before.substring_char(sp + 1, i);
                    assert(num@ =~= before@.skip(sp + 1));
                    match parse_u32(num) {
                        Some(v) => {
                            wmm = v;
                        },
                        None => {},
                    }
                },
                None => {},
            }
            let after = line.substring_char(i + 5, n);
            assert(after@ =~= line@.skip(i + 5));
            match str_find(after, "mm") {
                Some(e) => {
                    proof {
                        lemma_find_from_found(after@, mm_word(), 0);
                    }
                    let num = str_trim(after.substring_char(0, e));
                    assert(after@.subrange(0, e as int) =~= after@.take(e as int));
                    match parse_u32(num) {
                        Some(v) => {
                            hmm = v;
                        },
                        None => {},
                    }
                },
                None => {},
            }
        },
        None => {},
    }
    (wmm, hmm)
}

/// What a word of an output's line says of the geometry: `None` when it is
/// no geometry, `Some(None)` when a number in it does not parse.
fn part_geometry_of(part: &str, line: &str) -> (r: Option<Option<OutputGeometry>>)
    ensures
        match part_geometry(part@, line@) {
            PartGeometry::NotGeometry => r is None,
            PartGeometry::Invalid => r == Some(None::<OutputGeometry>),
            PartGeometry::Found(g) => r == Some(Some(g)),
        },
{
    let p = match str_find_char(part, '+') {
        Some(p) => p,
        None => return None,
    };
    let n = part.unicode_len();
    let dims = part.substring_char(0, p);
    let pos = part.substring_char(p + 1, n);
    assert(dims@ =~= part@.take(p as int));
    assert(pos@ =~= part@.skip(p + 1));
    let q = match str_find_char(dims, 'x') {
        Some(q) => q,
        None => return None,
    };
    let dn = dims.unicode_len();
    let ws = dims.substring_char(0, q);
    let hs = dims.substring_char(q + 1, dn);
    assert(ws@ =~= dims@.take(q as int));
    assert(hs@ =~= dims@.skip(q + 1));
    let w = match parse_u32(ws) {
        Some(w) => w,
        None => return Some(None),
    };
    let h = match parse_u32(hs) {
        Some(h) => h,
        None => return Some(None),
    };
    let pp = str_split_char(pos, '+');
    proof {
        assert(views(pp@).len() == pp@.len());
    }
    if pp.len() < 2 {
        return None;
    }
    proof {
        assert(views(pp@)[0] == pp@[0]@);
        assert(views(pp@)[1] == pp@[1]@);
    }
    let x = match parse_i32(pp[0].as_str()) {
        Some(x) => x,
        None => return Some(None),
    };
    let y = match parse_i32(pp[1].as_str()) {
        Some(y) => y,
        None => return Some(None),
    };
    let (wmm, hmm) = mm_sizes(line, w, h);
    Some(
        Some(
            OutputGeometry {
                x,
                y,
                width: w,
                height: h,
                width_mm: if wmm < 1 { 1 } else { wmm },
                height_mm: if hmm < 1 { 1 } else { hmm },
            },
        ),
    )
}

/// The geometry of output `output_name` in the output of `xrandr --query`.
pub fn output_geometry(xrandr_out: &str, output_name: &str) -> (r: Option<OutputGeometry>)
    ensures
        r == output_geometry_spec(xrandr_out@, output_name@),
{
    proof {
        reveal_strlit(" connected");
        assert(" connected"@ =~= space_connected_word());
    }
    let lines = str_lines(xrandr_out);
    let ghost ls = lines_spec(xrandr_out@);
    let n = lines.len();
    let mut i: usize = 0;
    proof {
        assert(ls.skip(0) =~= ls);
    }
    while i < n
        invariant
            i <= n,
            n == lines@.len(),
            views(lines@) == ls,
            ls == lines_spec(xrandr_out@),
            " connected"@ == space_connected_word(),
            first_output_line(ls, output_name@) == first_output_line(ls.skip(i as int), output_name@),
        decreases n - i,
    {
        let line = lines[i].as_str();
        proof {
            assert(ls[i as int] == lines@[i as int]@);
            assert(ls.skip(i as int)[0] == ls[i as int]);
            assert(ls.skip(i as int).drop_first() =~= ls.skip(i + 1));
        }
        if str_starts_with(line, output_name) && str_contains(line, " connected") {
            let ghost l = ls[i as int];
            assert(first_output_line(ls, output_name@) == Some(l));
            let parts = str_split_whitespace(line);
            let ghost ws = words_spec(l);
            assert(output_geometry_spec(xrandr_out@, output_name@) == line_geometry(ws, l));
            let m = parts.len();
            let mut k: usize = 0;
            proof {
                assert(ws.skip(0) =~= ws);
            }
            while k < m
                invariant
                    k <= m,
                    m == parts@.len(),
                    views(parts@) == ws,
                    line@ == l,
                    output_geometry_spec(xrandr_out@, output_name@) == line_geometry(ws, l),
                    line_geometry(ws, l) == line_geometry(ws.skip(k as int), l),
                decreases m - k,
            {
                proof {
                    assert(ws[k as int] == parts@[k as int]@);
                    assert(ws.skip(k as int)[0] == ws[k as int]);
                    assert(ws.skip(k as int).drop_first() =~= ws.skip(k + 1));
                }
                match part_geometry_of(parts[k].as_str(), line) {
                    Some(g) => {
                        return g;
                    },
                    None => {},
                }
                k = k + 1;
            }
            proof {
                assert(ws.skip(m as int).len() == 0);
            }
            return None;
        }
        i = i + 1;
    }
    proof {
        assert(ls.skip(n as int).len() == 0);
    }
    None
}

/// The characters `EVDI-`.
pub open spec fn evdi_prefix() -> Seq<char> {
    seq!['E', 'V', 'D', 'I', '-']
}

/// The monitor name in one line of `xrandr --listmonitors`, such as
/// `EVDI-DVI_I_1` in ` 1: +EVDI-DVI_I_1 2400/625x1080/289+2560+0  DVI-I-1`:
/// the word after the colon, without its `+` and `*` marks.
pub open spec fn listed_monitor_name(line: Seq<char>) -> Option<Seq<char>> {
    let t = trim_spec(line);
    match find_char_spec(t, ':') {
        Some(c) => {
            let ns = trim_start_marks_spec(trim_spec(t.skip(c + 1)));
            match find_ws_spec(ns) {
                Some(sp) => Some(ns.take(sp)),
                None => None,
            }
        },
        None => None,
    }
}

/// The listed monitors whose name starts with `EVDI-`, in order.
pub open spec fn evdi_monitors_spec(ls: Seq<Seq<char>>) -> Seq<Seq<char>>
    decreases ls.len(),
{
    if ls.len() == 0 {
        Seq::empty()
    } else {
        let r = evdi_monitors_spec(ls.drop_last());
        match listed_monitor_name(ls.last()) {
            Some(n) => if seq_starts_with(n, evdi_prefix()) {
                r.push(n)
            } else {
                r
            },
            None => r,
        }
    }
}

/// Only monitors named `EVDI-…` are ever picked for removal.
pub proof fn lemma_evdi_monitors_prefixed(ls: Seq<Seq<char>>)
    ensures
        forall|i: int| 0 <= i < evdi_monitors_spec(ls).len() ==> seq_starts_with(
            #[trigger] evdi_monitors_spec(ls)[i],
            evdi_prefix(),
        ),
    decreases ls.len(),
{
    if ls.len() > 0 {
        lemma_evdi_monitors_prefixed(ls.drop_last());
        let r = evdi_monitors_spec(ls.drop_last());
        let s = evdi_monitors_spec(ls);
        assert forall|i: int| 0 <= i < s.len() implies seq_starts_with(#[trigger] s[i], evdi_prefix()) by {
            if i < r.len() {
                assert(s[i] == r[i]);
            }
        }
    }
}

/// The monitor created for an EVDI output is one of those picked for
/// removal: its name starts with `EVDI-`.
pub proof fn lemma_created_monitor_is_removable(evdi: Seq<char>)
    ensures
        seq_starts_with(randr_monitor_name_spec(evdi), evdi_prefix()),
{
    assert(randr_monitor_name_spec(evdi).subrange(0, 5) =~= evdi_prefix());
}

/// The monitor name in one line of `xrandr --listmonitors`.
fn monitor_name_of(line: &str) -> (r: Option<String>)
    ensures
        match listed_monitor_name(line@) {
            Some(n) => r matches Some(s) && s@ == n,
            None => r is None,
        },
{
    let t = str_trim(line);
    let c = match str_find_char(t, ':') {
        Some(c) => c,
        None => return None,
    };
    let n = t.unicode_len();
    let rest = t.substring_char(c + 1, n);
    assert(rest@ =~= t@.skip(c + 1));
    let ns = str_trim_start_marks(str_trim(rest));
    match str_find_ws(ns) {
        Some(sp) => {
            let name = ns.substring_char(0, sp).to_owned();
            assert(name@ =~= ns@.take(sp as int));
            Some(name)
        },
        None => None,
    }
}

/// The RandR monitors created for EVDI outputs, from the output of
/// `xrandr --listmonitors`: those whose name starts with `EVDI-`.
pub fn evdi_randr_monitors(listmonitors_out: &str) -> (r: Vec<String>)
    ensures
        views(r@) == evdi_monitors_spec(lines_spec(listmonitors_out@)),
        forall|i: int| 0 <= i < r@.len() ==> seq_starts_with(#[trigger] r@[i]@, evdi_prefix()),
{
    proof {
        lemma_evdi_monitors_prefixed(lines_spec(listmonitors_out@));
    }
    proof {
        reveal_strlit("EVDI-");
        assert("EVDI-"@ =~= evdi_prefix());
    }
    let lines = str_lines(listmonitors_out);
    let ghost ls = lines_spec(listmonitors_out@);
    let n = lines.len();
    let mut out: Vec<String> = Vec::new();
    let mut i: usize = 0;
    proof {
        assert(views(out@) =~= Seq::<Seq<char>>::empty());
        assert(ls.take(0) =~= Seq::<Seq<char>>::empty());
    }
    while i < n
        invariant
            i <= n,
            n == lines@.len(),
            views(lines@) == ls,
            "EVDI-"@ == evdi_prefix(),
            views(out@) == evdi_monitors_spec(ls.take(i as int)),
        decreases n - i,
    {
        proof {
            assert(ls[i as int] == lines@[i as int]@);
            assert(ls.take(i + 1).drop_last() =~= ls.take(i as int));
            assert(ls.take(i + 1).last() == ls[i as int]);
        }
        match monitor_name_of(lines[i].as_str()) {
            Some(name) => {
                if str_starts_with(name.as_str(), "EVDI-") {
                    let ghost pre = out@;
                    let ghost nv = name@;
                    out.push(name);
                    proof {
                        assert(views(out@) =~= views(pre).push(nv));
                    }
                }
            },
            None => {},
        }
        i = i + 1;
    }
    proof {
        assert(ls.take(n as int) =~= ls);
        assert forall|i: int| 0 <= i < out@.len() implies seq_starts_with(#[trigger] out@[i]@, evdi_prefix()) by {
            assert(views(out@)[i] == out@[i]@);
        }
    }
    out
}

/// The name of the RandR monitor created for an EVDI output: `EVDI-` then
/// the output name with `-` replaced by `_`.
pub open spec fn randr_monitor_name_spec(evdi: Seq<char>) -> Seq<char> {
    evdi_prefix() + evdi.map_values(|c: char| if c == '-' { '_' } else { c })
}

/// The geometry argument of `xrandr --setmonitor` for an output:
/// `W/WMMxH/HMM+X+Y` from its geometry, or `auto` when it is not known.
pub open spec fn setmonitor_geometry_spec(geo: Option<OutputGeometry>) -> Seq<char> {
    match geo {
        Some(g) => decimal_spec(g.width as nat) + seq!['/'] + decimal_spec(g.width_mm as nat) + seq!['x']
            + decimal_spec(g.height as nat) + seq!['/'] + decimal_spec(g.height_mm as nat) + seq!['+']
            + i32_decimal_spec(g.x) + seq!['+'] + i32_decimal_spec(g.y),
        None => seq!['a', 'u', 't', 'o'],
    }
}

/// The geometry argument of `xrandr --setmonitor` for an output with the
/// geometry `geo`, or `auto` when it is not known.
pub fn setmonitor_geometry(geo: &Option<OutputGeometry>) -> (r: String)
    ensures
        r@ == setmonitor_geometry_spec(*geo),
{
    proof {
        reveal_strlit("/");
        reveal_strlit("x");
        reveal_strlit("+");
        reveal_strlit("auto");
    }
    match geo {
        Some(g) => {
            let mut out = u32_to_decimal(g.width);
            out.append("/");
            out.append(u32_to_decimal(g.width_mm).as_str());
            out.append("x");
            out.append(u32_to_decimal(g.height).as_str());
            out.append("/");
            out.append(u32_to_decimal(g.height_mm).as_str());
            out.append("+");
            out.append(i32_to_decimal(g.x).as_str());
            out.append("+");
            out.append(i32_to_decimal(g.y).as_str());
            out
        },
        None => "auto".to_owned(),
    }
}

/// The name of the RandR monitor created for the EVDI output `evdi_name`.
pub fn randr_monitor_name(evdi_name: &str) -> (r: String)
    ensures
        r@ == randr_monitor_name_spec(evdi_name@),
{
    let mut out = "EVDI-".to_owned();
    proof {
        reveal_strlit("EVDI-");
        reveal_strlit("_");
        assert(out@ =~= evdi_prefix());
    }
    let n = evdi_name.unicode_len();
    let ghost mapped = evdi_name@.map_values(|c: char| if c == '-' { '_' } else { c });
    let mut i: usize = 0;
    while i < n
        invariant
            i <= n,
            n == evdi_name@.len(),
            mapped == evdi_name@.map_values(|c: char| if c == '-' { '_' } else { c }),
            "_"@ == seq!['_'],
            out@ == evdi_prefix() + mapped.take(i as int),
        decreases n - i,
    {
        let c = evdi_name.get_char(i);
        if c == '-' {
            out.append("_");
        } else {
            out.append(evdi_name.substring_char(i, i + 1));
        }
        proof {
            assert(evdi_name@.subrange(i as int, i + 1) =~= seq![c]);
            assert(mapped[i as int] == (if c == '-' { '_' } else { c }));
            assert(out@ =~= evdi_prefix() + mapped.take(i + 1));
        }
        i = i + 1;
    }
    proof {
        assert(mapped.take(n as int) =~= mapped);
    }
    out
}

/// The characters `EVDI`.
pub open spec fn evdi_word() -> Seq<char> {
    seq!['E', 'V', 'D', 'I']
}

/// The characters `DVI-I`.
pub open spec fn dvi_word() -> Seq<char> {
    seq!['D', 'V', 'I', '-', 'I']
}

/// Whether one of the captured displays is the EVDI output `evdi`: its name
/// mentions the output or `EVDI`.
pub open spec fn evdi_display_listed_spec(names: Seq<Seq<char>>, evdi: Seq<char>) -> bool {
    exists|i: int| 0 <= i < names.len() && (seq_contains_seq(names[i], evdi) || seq_contains_seq(names[i], evdi_word()))
}

/// Whether the captured displays named `names` already include the EVDI
/// output, so that no RandR monitor has to be created for it.
pub fn evdi_display_listed(names: &Vec<String>, evdi_name: &str) -> (r: bool)
    ensures
        r == evdi_display_listed_spec(views(names@), evdi_name@),
{
    proof {
        reveal_strlit("EVDI");
        assert("EVDI"@ =~= evdi_word());
    }
    let n = names.len();
    let mut i: usize = 0;
    while i < n
        invariant
            i <= n,
            n == names@.len(),
            "EVDI"@ == evdi_word(),
            forall|j: int| 0 <= j < i ==> !(seq_contains_seq(#[trigger] views(names@)[j], evdi_name@) || seq_contains_seq(views(names@)[j], evdi_word())),
        decreases n - i,
    {
        let name = names[i].as_str();
        proof {
            assert(views(names@)[i as int] == names@[i as int]@);
        }
        if str_contains(name, evdi_name) || str_contains(name, "EVDI") {
            return true;
        }
        i = i + 1;
    }
    false
}

/// Whether one of the captured displays is an EVDI output: its name
/// mentions `DVI-I` or `EVDI`.
pub open spec fn evdi_output_visible_spec(names: Seq<Seq<char>>) -> bool {
    exists|i: int| 0 <= i < names.len() && (seq_contains_seq(names[i], dvi_word()) || seq_contains_seq(names[i], evdi_word()))
}

/// Whether the display server already shows an EVDI output among the
/// captured displays named `names`, so that it needs no placing.
pub fn evdi_output_visible(names: &Vec<String>) -> (r: bool)
    ensures
        r == evdi_output_visible_spec(views(names@)),
{
    proof {
        reveal_strlit("EVDI");
        reveal_strlit("DVI-I");
        assert("EVDI"@ =~= evdi_word());
        assert("DVI-I"@ =~= dvi_word());
    }
    let n = names.len();
    let mut i: usize = 0;
    while i < n
        invariant
            i <= n,
            n == names@.len(),
            "EVDI"@ == evdi_word(),
            "DVI-I"@ == dvi_word(),
            forall|j: int| 0 <= j < i ==> !(seq_contains_seq(#[trigger] views(names@)[j], dvi_word()) || seq_contains_seq(views(names@)[j], evdi_word())),
        decreases n - i,
    {
        let name = names[i].as_str();
        proof {
            assert(views(names@)[i as int] == names@[i as int]@);
        }
        if str_contains(name, "DVI-I") || str_contains(name, "EVDI") {
            return true;
        }
        i = i + 1;
    }
    false
}

/// Whether `xrandr` refused a mode because the output does not offer it.
pub fn mode_not_found(stderr: &str) -> (r: bool)
    ensures
        r == seq_contains_seq(stderr@, "cannot find mode"@),
{
    str_contains(stderr, "cannot find mode")
}

/// Where placing a new EVDI output stands.
#[derive(Debug, Clone, Copy, PartialEq, Eq)]
pub enum PositionState {
    /// Nothing done yet.
    Start,
    /// Waiting for the result of visibility check `n` (counted from 0).
    Checking(u32),
    /// Waiting for the result of looking for the output, attempt `n`.
    Searching(u32),
    /// Waiting for the result of setting the requested mode.
    SettingMode,
    /// Waiting for the result of setting the preferred mode.
    SettingAuto,
    /// Placing is over.
    Done,
}

/// What the caller observed since the last step.
#[derive(Debug, Clone, Copy, PartialEq, Eq)]
pub enum PositionEvent {
    /// Placing begins.
    Begin,
    /// A visibility check: whether the display list shows an EVDI output
    /// (a failed read counts as not shown).
    Checked { visible: bool },
    /// Looking for the EVDI output in `xrandr`: whether it was found.
    Looked { found: bool },
    /// `xrandr --mode`: whether it worked, and whether it refused the mode
    /// because the output does not offer it.
    ModeSet { ok: bool, mode_not_found: bool },
    /// `xrandr --auto`: whether it worked.
    AutoSet { ok: bool },
}

/// What the caller does next.
#[derive(Debug, Clone, Copy, PartialEq, Eq)]
pub enum PositionAction {
    /// Wait `wait_ms`, then check whether the display list shows the output.
    CheckVisible { wait_ms: u64 },
    /// Wait `wait_ms`, then look for the EVDI output and the primary output.
    LookForOutput { wait_ms: u64 },
    /// Place the output right of the primary one at the requested mode.
    SetMode,
    /// Place the output right of the primary one at its preferred mode.
    SetAuto,
    /// Wait `wait_ms`, then create the RandR monitor for the output; done.
    CreateMonitor { wait_ms: u64 },
    /// Stop: the output is visible, placing failed, or it was not found in time.
    Stop,
}

/// Visibility checks before falling back to `xrandr`.
pub const POSITION_CHECKS: u32 = 5;
/// Wait between visibility checks, in ms.
pub const POSITION_CHECK_INTERVAL_MS: u64 = 500;
/// Attempts at finding the output in `xrandr`.
pub const POSITION_ATTEMPTS: u32 = 30;
/// Wait before each attempt, in ms.
pub const POSITION_ATTEMPT_INTERVAL_MS: u64 = 200;

/// One step of placing a new EVDI output: after a settle delay the display
/// list is checked up to 5 times, 500 ms apart; an output already shown is
/// left alone. Else `xrandr` is asked for the output up to 30 times, 200 ms
/// apart; once found, it is placed right of the primary output at the
/// requested mode, or at its preferred mode when the requested one is not
/// offered, and on success the RandR monitor is created after a settle delay.
/// Placing ends after the first attempt that finds the output, whether it
/// worked or not. An event that does not fit the state ends placing.
pub open spec fn position_step_spec(s: PositionState, ev: PositionEvent) -> (PositionState, PositionAction) {
    match (s, ev) {
        (PositionState::Start, PositionEvent::Begin) =>
            (PositionState::Checking(0), PositionAction::CheckVisible { wait_ms: DRM_HOTPLUG_SETTLE_MS }),
        (PositionState::Checking(n), PositionEvent::Checked { visible }) =>
            if visible {
                (PositionState::Done, PositionAction::Stop)
            } else if n + 1 < POSITION_CHECKS {
                (PositionState::Checking((n + 1) as u32), PositionAction::CheckVisible { wait_ms: POSITION_CHECK_INTERVAL_MS })
            } else {
                (PositionState::Searching(0), PositionAction::LookForOutput { wait_ms: POSITION_ATTEMPT_INTERVAL_MS })
            },
        (PositionState::Searching(n), PositionEvent::Looked { found }) =>
            if found {
                (PositionState::SettingMode, PositionAction::SetMode)
            } else if n + 1 < POSITION_ATTEMPTS {
                (PositionState::Searching((n + 1) as u32), PositionAction::LookForOutput { wait_ms: POSITION_ATTEMPT_INTERVAL_MS })
            } else {
                (PositionState::Done, PositionAction::Stop)
            },
        (PositionState::SettingMode, PositionEvent::ModeSet { ok, mode_not_found }) =>
            if ok {
                (PositionState::Done, PositionAction::CreateMonitor { wait_ms: DRM_HOTPLUG_SETTLE_MS })
            } else if mode_not_found {
                (PositionState::SettingAuto, PositionAction::SetAuto)
            } else {
                (PositionState::Done, PositionAction::Stop)
            },
        (PositionState::SettingAuto, PositionEvent::AutoSet { ok }) =>
            if ok {
                (PositionState::Done, PositionAction::CreateMonitor { wait_ms: DRM_HOTPLUG_SETTLE_MS })
            } else {
                (PositionState::Done, PositionAction::Stop)
            },
        _ => (PositionState::Done, PositionAction::Stop),
    }
}

/// One step of placing a new EVDI output; see [`position_step_spec`].
pub fn position_step(s: &PositionState, ev: PositionEvent) -> (r: (PositionState, PositionAction))
    ensures
        r == position_step_spec(*s, ev),
{
    match (*s, ev) {
        (PositionState::Start, PositionEvent::Begin) =>
            (PositionState::Checking(0), PositionAction::CheckVisible { wait_ms: DRM_HOTPLUG_SETTLE_MS }),
        (PositionState::Checking(n), PositionEvent::Checked { visible }) => {
            if visible {
                (PositionState::Done, PositionAction::Stop)
            } else if n < POSITION_CHECKS - 1 {
                (PositionState::Checking(n + 1), PositionAction::CheckVisible { wait_ms: POSITION_CHECK_INTERVAL_MS })
            } else {
                (PositionState::Searching(0), PositionAction::LookForOutput { wait_ms: POSITION_ATTEMPT_INTERVAL_MS })
            }
        },
        (PositionState::Searching(n), PositionEvent::Looked { found }) => {
            if found {
                (PositionState::SettingMode, PositionAction::SetMode)
            } else if n < POSITION_ATTEMPTS - 1 {
                (PositionState::Searching(n + 1), PositionAction::LookForOutput { wait_ms: POSITION_ATTEMPT_INTERVAL_MS })
            } else {
                (PositionState::Done, PositionAction::Stop)
            }
        },
        (PositionState::SettingMode, PositionEvent::ModeSet { ok, mode_not_found }) => {
            if ok {
                (PositionState::Done, PositionAction::CreateMonitor { wait_ms: DRM_HOTPLUG_SETTLE_MS })
            } else if mode_not_found {
                (PositionState::SettingAuto, PositionAction::SetAuto)
            } else {
                (PositionState::Done, PositionAction::Stop)
            }
        },
        (PositionState::SettingAuto, PositionEvent::AutoSet { ok }) => {
            if ok {
                (PositionState::Done, PositionAction::CreateMonitor { wait_ms: DRM_HOTPLUG_SETTLE_MS })
            } else {
                (PositionState::Done, PositionAction::Stop)
            }
        },
        _ => (PositionState::Done, PositionAction::Stop),
    }
}

/// How far placing is from its end: every step that does not end it lowers
/// this.
pub open spec fn position_rank(s: PositionState) -> int {
    match s {
        PositionState::Start => 3 + POSITION_ATTEMPTS + POSITION_CHECKS,
        PositionState::Checking(n) => 2 + POSITION_ATTEMPTS + POSITION_CHECKS - n,
        PositionState::Searching(n) => 2 + POSITION_ATTEMPTS - n,
        PositionState::SettingMode => 2,
        PositionState::SettingAuto => 1,
        PositionState::Done => 0,
    }
}

/// The states placing can be in: check and attempt counts within their limits.
pub open spec fn position_state_valid(s: PositionState) -> bool {
    match s {
        PositionState::Checking(n) => n < POSITION_CHECKS,
        PositionState::Searching(n) => n < POSITION_ATTEMPTS,
        _ => true,
    }
}

/// Placing always ends: whatever happens, each step from a valid state leads
/// to a valid state closer to the end, and at most 5 checks and 30 attempts
/// are made.
pub proof fn lemma_position_ends(s: PositionState, ev: PositionEvent)
    requires
        position_state_valid(s),
        s != PositionState::Done,
    ensures
        ({
            let (t, _) = position_step_spec(s, ev);
            &&& position_state_valid(t)
            &&& 0 <= position_rank(t) < position_rank(s)
        }),
{
}

} // verus!
