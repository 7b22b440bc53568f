//! The physical displays of a GNOME session, from the monitors and logical
//! monitors that Mutter's `DisplayConfig.GetCurrentState` reports.
use crate::text::{seq_starts_with, str_eq, str_starts_with};
use crate::tokens::views;
use vstd::prelude::*;

verus! {

/// A monitor as Mutter reports it: its connector and the sizes of its modes.
pub struct MutterMonitor {
    pub connector: String,
    pub modes: Vec<(i32, i32)>,
}

/// A logical monitor as Mutter reports it: position, the bit pattern of its
/// scale factor, whether it is primary, and the connectors it shows.
pub struct LogicalMonitor {
    pub x: i32,
    pub y: i32,
    pub scale_bits: u64,
    pub is_primary: bool,
    pub connectors: Vec<String>,
}

/// A physical display: connector name, position, size and scale.
pub struct PhysicalConnector {
    pub name: String,
    pub x: i32,
    pub y: i32,
    pub width: i32,
    pub height: i32,
    pub scale_bits: u64,
    pub is_primary: bool,
}

/// The characters `Meta-`, the prefix of Mutter's own virtual monitors.
pub open spec fn meta_prefix() -> Seq<char> {
    seq!['M', 'e', 't', 'a', '-']
}

/// The first mode with a positive width and height.
pub open spec fn first_real_mode(modes: Seq<(i32, i32)>) -> Option<(i32, i32)>
    decreases modes.len(),
{
    if modes.len() == 0 {
        None
    } else if modes[0].0 > 0 && modes[0].1 > 0 {
        Some(modes[0])
    } else {
        first_real_mode(modes.drop_first())
    }
}

/// The size of the connector `name`: the first real mode of the first
/// monitor on that connector, or `(0, 0)`.
pub open spec fn connector_size(monitors: Seq<MutterMonitor>, name: Seq<char>) -> (i32, i32)
    decreases monitors.len(),
{
    if monitors.len() == 0 {
        (0, 0)
    } else if monitors[0].connector@ == name {
        match first_real_mode(monitors[0].modes@) {
            Some(m) => m,
            None => (0, 0),
        }
    } else {
        connector_size(monitors.drop_first(), name)
    }
}

/// The physical displays of one logical monitor's connectors, in order:
/// Mutter's virtual monitors and connectors without a real mode are left out.
pub open spec fn logical_connectors(
    monitors: Seq<MutterMonitor>,
    lm: LogicalMonitor,
    names: Seq<Seq<char>>,
) -> Seq<(Seq<char>, i32, i32, i32, i32, u64, bool)>
    decreases names.len(),
{
    if names.len() == 0 {
        Seq::empty()
    } else {
        let rest = logical_connectors(monitors, lm, names.drop_last());
        let name = names.last();
        let (w, h) = connector_size(monitors, name);
        if !seq_starts_with(name, meta_prefix()) && w > 0 && h > 0 {
            rest.push((name, lm.x, lm.y, w, h, lm.scale_bits, lm.is_primary))
        } else {
            rest
        }
    }
}

/// The physical displays of all logical monitors, in order.
pub open spec fn physical_connectors_spec(monitors: Seq<MutterMonitor>, logical: Seq<LogicalMonitor>) -> Seq<
    (Seq<char>, i32, i32, i32, i32, u64, bool),
>
    decreases logical.len(),
{
    if logical.len() == 0 {
        Seq::empty()
    } else {
        physical_connectors_spec(monitors, logical.drop_last()) + logical_connectors(
            monitors,
            logical.last(),
            views(logical.last().connectors@),
        )
    }
}

/// The abstract value of a physical display.
pub open spec fn connector_view(c: PhysicalConnector) -> (Seq<char>, i32, i32, i32, i32, u64, bool) {
    (c.name@, c.x, c.y, c.width, c.height, c.scale_bits, c.is_primary)
}

/// The size of connector `name` among the monitors.
fn find_connector_size(monitors: &Vec<MutterMonitor>, name: &str) -> (r: (i32, i32))
    ensures
        r == connector_size(monitors@, name@),
{
    let mut i: usize = 0;
    proof {
        assert(monitors@.skip(0) =~= monitors@);
    }
    while i < monitors.len()
        invariant
            i <= monitors@.len(),
            connector_size(monitors@, name@) == connector_size(monitors@.skip(i as int), name@),
        decreases monitors@.len() - i,
    {
        proof {
            assert(monitors@.skip(i as int)[0] == monitors@[i as int]);
            assert(monitors@.skip(i as int).drop_first() =~= monitors@.skip(i + 1));
        }
        if str_eq(monitors[i].connector.as_str(), name) {
            let modes = &monitors[i].modes;
            let mut k: usize = 0;
            proof {
                assert(modes@.skip(0) =~= modes@);
            }
            while k < modes.len()
                invariant
                    k <= modes@.len(),
                    i < monitors@.len(),
                    modes@ == monitors@[i as int].modes@,
                    connector_size(monitors@, name@) == (match first_real_mode(modes@) {
                        Some(m) => m,
                        None => (0i32, 0i32),
                    }),
                    first_real_mode(modes@) == first_real_mode(modes@.skip(k as int)),
                decreases modes@.len() - k,
            {
                proof {
                    assert(modes@.skip(k as int)[0] == modes@[k as int]);
                    assert(modes@.skip(k as int).drop_first() =~= modes@.skip(k + 1));
                }
                let (w, h) = modes[k];
                if w > 0 && h > 0 {
                    return (w, h);
                }
                k = k + 1;
            }
            proof {
                assert(modes@.skip(modes@.len() as int).len() == 0);
            }
            return (0, 0);
        }
        i = i + 1;
    }
    proof {
        assert(monitors@.skip(monitors@.len() as int).len() == 0);
    }
    (0, 0)
}

/// The physical displays of a GNOME session: for each logical monitor, in
/// order, each of its connectors that is not one of Mutter's own virtual
/// monitors (`Meta-…`) and has a mode with a positive size, at the logical
/// monitor's position and scale. `None` when there is no such display.
pub fn physical_connectors(monitors: &Vec<MutterMonitor>, logical: &Vec<LogicalMonitor>) -> (r: Option<
    Vec<PhysicalConnector>,
>)
    ensures
        match r {
            Some(v) => v@.map_values(|c: PhysicalConnector| connector_view(c)) == physical_connectors_spec(
                monitors@,
                logical@,
            ) && v@.len() > 0,
            None => physical_connectors_spec(monitors@, logical@).len() == 0,
        },
{
    proof {
        reveal_strlit("Meta-");
        assert("Meta-"@ =~= meta_prefix());
    }
    let mut out: Vec<PhysicalConnector> = Vec::new();
    let mut i: usize = 0;
    proof {
        assert(logical@.take(0) =~= Seq::<LogicalMonitor>::empty());
        assert(out@.map_values(|c: PhysicalConnector| connector_view(c)) =~= Seq::empty());
    }
    while i < logical.len()
        invariant
            i <= logical@.len(),
            "Meta-"@ == meta_prefix(),
            out@.map_values(|c: PhysicalConnector| connector_view(c)) == physical_connectors_spec(
                monitors@,
                logical@.take(i as int),
            ),
        decreases logical@.len() - i,
    {
        let lm = &logical[i];
        let ghost base = out@.map_values(|c: PhysicalConnector| connector_view(c));
        let ghost names = views(lm.connectors@);
        proof {
            assert(logical@.take(i + 1).drop_last() =~= logical@.take(i as int));
            assert(logical@.take(i + 1).last() == logical@[i as int]);
        }
        let mut k: usize = 0;
        proof {
            assert(names.take(0) =~= Seq::<Seq<char>>::empty());
            assert(base + logical_connectors(monitors@, *lm, names.take(0)) =~= base);
        }
        while k < lm.connectors.len()
            invariant
                k <= names.len(),
                names == views(lm.connectors@),
                "Meta-"@ == meta_prefix(),
                out@.map_values(|c: PhysicalConnector| connector_view(c)) == base + logical_connectors(
                    monitors@,
                    *lm,
                    names.take(k as int),
                ),
            decreases names.len() - k,
        {
            let name = lm.connectors[k].as_str();
            proof {
                assert(names[k as int] == lm.connectors@[k as int]@);
                assert(names.take(k + 1).drop_last() =~= names.take(k as int));
                assert(names.take(k + 1).last() == names[k as int]);
            }
            let (w, h) = find_connector_size(monitors, name);
            if !str_starts_with(name, "Meta-") && w > 0 && h > 0 {
                let ghost pre = out@;
                let c = PhysicalConnector {
                    name: name.to_owned(),
                    x: lm.x,
                    y: lm.y,
                    width: w,
                    height: h,
                    scale_bits: lm.scale_bits,
                    is_primary: lm.is_primary,
                };
                let ghost cv = connector_view(c);
                out.push(c);
                proof {
                    assert(out@.map_values(|c: PhysicalConnector| connector_view(c)) =~= pre.map_values(
                        |c: PhysicalConnector| connector_view(c),
                    ).push(cv));
                }
            }
            k = k + 1;
        }
        proof {
            assert(names.take(names.len() as int) =~= names);
        }
        i = i + 1;
    }
    proof {
        assert(logical@.take(logical@.len() as int) =~= logical@);
    }
    if out.len() == 0 {
        None
    } else {
        Some(out)
    }
}

proof fn lemma_logical_connectors_from(monitors: Seq<MutterMonitor>, lm: LogicalMonitor, names: Seq<Seq<char>>)
    ensures
        forall|k: int| 0 <= k < logical_connectors(monitors, lm, names).len() ==> {
            let c = #[trigger] logical_connectors(monitors, lm, names)[k];
            &&& names.contains(c.0)
            &&& c.1 == lm.x
            &&& c.2 == lm.y
            &&& c.5 == lm.scale_bits
            &&& c.6 == lm.is_primary
            &&& !seq_starts_with(c.0, meta_prefix())
            &&& (c.3, c.4) == connector_size(monitors, c.0)
            &&& c.3 > 0 && c.4 > 0
        },
    decreases names.len(),
{
    if names.len() > 0 {
        let t = names.drop_last();
        lemma_logical_connectors_from(monitors, lm, t);
        let lc = logical_connectors(monitors, lm, names);
        let prev = logical_connectors(monitors, lm, t);
        assert forall|k: int| 0 <= k < lc.len() implies {
            let c = #[trigger] lc[k];
            &&& names.contains(c.0)
            &&& c.1 == lm.x
            &&& c.2 == lm.y
            &&& c.5 == lm.scale_bits
            &&& c.6 == lm.is_primary
            &&& !seq_starts_with(c.0, meta_prefix())
            &&& (c.3, c.4) == connector_size(monitors, c.0)
            &&& c.3 > 0 && c.4 > 0
        } by {
            if k < prev.len() {
                assert(lc[k] == prev[k]);
                let j = choose|j: int| 0 <= j < t.len() && t[j] == prev[k].0;
                assert(names[j] == t[j]);
            } else {
                assert(names[names.len() - 1] == names.last());
            }
        }
    }
}

/// Each physical display stands where the logical monitor that shows it
/// stands: it is a connector listed by some logical monitor, with that
/// logical monitor's position, scale and primary flag, is none of Mutter's
/// own virtual monitors, and has the connector's first real mode as size.
pub proof fn lemma_physical_connectors_positions(monitors: Seq<MutterMonitor>, logical: Seq<LogicalMonitor>)
    ensures
        forall|k: int| 0 <= k < physical_connectors_spec(monitors, logical).len() ==> {
            let c = #[trigger] physical_connectors_spec(monitors, logical)[k];
            &&& exists|j: int| 0 <= j < logical.len() && views(logical[j].connectors@).contains(c.0)
                && c.1 == logical[j].x && c.2 == logical[j].y
                && c.5 == logical[j].scale_bits && c.6 == logical[j].is_primary
            &&& !seq_starts_with(c.0, meta_prefix())
            &&& (c.3, c.4) == connector_size(monitors, c.0)
            &&& c.3 > 0 && c.4 > 0
        },
    decreases logical.len(),
{
    if logical.len() > 0 {
        let t = logical.drop_last();
        let lm = logical.last();
        lemma_physical_connectors_positions(monitors, t);
        lemma_logical_connectors_from(monitors, lm, views(lm.connectors@));
        let ps = physical_connectors_spec(monitors, logical);
        let prev = physical_connectors_spec(monitors, t);
        let lc = logical_connectors(monitors, lm, views(lm.connectors@));
        assert forall|k: int| 0 <= k < ps.len() implies {
            let c = #[trigger] ps[k];
            &&& exists|j: int| 0 <= j < logical.len() && views(logical[j].connectors@).contains(c.0)
                && c.1 == logical[j].x && c.2 == logical[j].y
                && c.5 == logical[j].scale_bits && c.6 == logical[j].is_primary
            &&& !seq_starts_with(c.0, meta_prefix())
            &&& (c.3, c.4) == connector_size(monitors, c.0)
            &&& c.3 > 0 && c.4 > 0
        } by {
            if k < prev.len() {
                assert(ps[k] == prev[k]);
                let c = prev[k];
                let j = choose|j: int| 0 <= j < t.len() && views(t[j].connectors@).contains(c.0)
                    && c.1 == t[j].x && c.2 == t[j].y && c.5 == t[j].scale_bits && c.6 == t[j].is_primary;
                assert(logical[j] == t[j]);
            } else {
                assert(ps[k] == lc[k - prev.len()]);
                assert(logical[logical.len() - 1] == lm);
            }
        }
    }
}

} // verus!
