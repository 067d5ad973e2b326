//! The tour reconstructor: reads the solver's tour and expands it back into
//! motion commands, re-deriving coordinates, extrusion amounts and feed
//! rates; and the small-layer path that keeps the original order.

use vstd::prelude::*;
use crate::math::{Point, spec_distance, distance_3d};
use crate::gcode::{CoordinatesMode, GCodeLayer, GCodeStats, LayerModel, UnitsMode};
use crate::text::{lit, put_str, fixed_text, fmt_fixed};
use crate::encoder::encode_spec;

verus! {

broadcast use vstd::std_specs::hash::group_hash_axioms;

/// Adding with the cap of a signed 64-bit value, as the running extrusion
/// total uses.
pub open spec fn sat_add_i64(a: int, b: int) -> int {
    if a + b > i64::MAX {
        i64::MAX as int
    } else if a + b <= i64::MIN {
        i64::MIN + 1
    } else {
        a + b
    }
}

/// The output program under construction.
pub struct Optimizer {
    /// Positioning mode the output is written in.
    pub position_mode: CoordinatesMode,
    /// Extrusion mode the output is written in.
    pub extruder_mode: CoordinatesMode,
    /// The output program text.
    pub contents: Vec<u8>,
    /// Raw coordinates of the last emitted destination.
    pub last_position: Point,
    /// Running extrusion total, in hundred-thousandths.
    pub last_extrusion: i64,
    /// Length totals of the reordered program.
    pub stats: GCodeStats,
}

/// The ghost shape of the output program state.
#[verifier::ext_equal]
pub ghost struct OptModel {
    pub position_mode: CoordinatesMode,
    pub extruder_mode: CoordinatesMode,
    pub contents: Seq<u8>,
    pub last_position: Point,
    pub last_extrusion: i64,
    pub extrusion_distance: int,
    pub travel_distance: int,
    pub units_mode: UnitsMode,
}

impl View for Optimizer {
    type V = OptModel;

    open spec fn view(&self) -> OptModel {
        OptModel {
            position_mode: self.position_mode,
            extruder_mode: self.extruder_mode,
            contents: self.contents@,
            last_position: self.last_position,
            last_extrusion: self.last_extrusion,
            extrusion_distance: self.stats.extrusion_distance as int,
            travel_distance: self.stats.travel_distance as int,
            units_mode: self.stats.units_mode,
        }
    }
}

/// The segment from `o` to `d` (one-based, adjacent in either direction)
/// extrudes: its lower end opens a mandatory segment.
pub open spec fn seg_extrudes(l: LayerModel, o: int, d: int) -> bool {
    (d - o == 1 && l.extrusions.dom().contains(o as u32)) || (o - d == 1
        && l.extrusions.dom().contains(d as u32))
}

/// The feed rate key a motion from `o` to `d` reads: the lower end for
/// adjacent pairs, the default key 0 for jumps the solver invented.
pub open spec fn feed_key(o: int, d: int) -> u32 {
    if d - o == 1 {
        o as u32
    } else if o - d == 1 {
        d as u32
    } else {
        0u32
    }
}

/// The line one motion command emits, and the state it leaves: position
/// mode decides relative or absolute coordinates, a mandatory segment is a
/// linear move carrying its extrusion amount, anything else a rapid move,
/// and a known positive feed rate is appended.
#[verifier::opaque]
pub open spec fn add_line_spec(m: OptModel, l: LayerModel, o: int, d: int) -> OptModel {
    let n = l.nodes[d - 1];
    let p = l.nodes[o - 1];
    let x = if m.position_mode is Relative { n.x - p.x } else { n.x as int };
    let y = if m.position_mode is Relative { n.y - p.y } else { n.y as int };
    let z = if m.position_mode is Relative { n.z - p.z } else { n.z as int };
    let coords = lit("X") + fixed_text(x, 3) + lit(" Y") + fixed_text(y, 3) + lit(" Z")
        + fixed_text(z, 3);
    let dist = spec_distance(m.last_position, n);
    let extr = seg_extrudes(l, o, d);
    let e0 = l.extrusions[(if d - o == 1 { o } else { d }) as u32];
    let shown = if m.extruder_mode is Absolute { sat_add_i64(e0 as int, m.last_extrusion as int) }
        else { e0 as int };
    let body = if extr {
        lit("G1 ") + coords + lit(" E") + fixed_text(shown, 5)
    } else {
        lit("G0 ") + coords
    };
    let fkey = feed_key(o, d);
    let f = if l.feedrates.dom().contains(fkey) { l.feedrates[fkey] } else { 0i64 };
    let line = if f > 0 { body + lit(" F") + fixed_text(f as int, 3) } else { body };
    OptModel {
        contents: m.contents + line + seq![10u8],
        last_position: n,
        last_extrusion: if extr { shown as i64 } else { m.last_extrusion },
        extrusion_distance: if extr { crate::gcode::sat_add(m.extrusion_distance, dist as int) }
            else { m.extrusion_distance },
        travel_distance: if extr { m.travel_distance } else { crate::gcode::sat_add(
            m.travel_distance, dist as int) },
        ..m
    }
}

impl Optimizer {
    /// The output state is sound: the last position is in range.
    pub open spec fn wf(self) -> bool {
        self.last_position.valid()
    }

    /// Emits one motion command from original node `origin` to original node
    /// `destination` of `layer`.
    #[verifier::loop_isolation(false)]
    #[verifier::rlimit(100)]
    pub fn add_line(&mut self, layer: &GCodeLayer, origin: u32, destination: u32)
        requires
            old(self).wf(),
            layer@.wf(),
            1 <= origin <= layer@.nodes.len(),
            1 <= destination <= layer@.nodes.len(),
        ensures
            final(self)@ == add_line_spec(old(self)@, layer@, origin as int, destination as int),
            final(self).wf(),
    {
        let ghost m = self@;
        let ghost l = layer@;
        let ghost o = origin as int;
        let ghost d = destination as int;
        let n = layer.nodes[destination as usize - 1];
        let p = layer.nodes[origin as usize - 1];
        let rel = self.position_mode == CoordinatesMode::Relative;
        let x: i64 = if rel { n.x - p.x } else { n.x };
        let y: i64 = if rel { n.y - p.y } else { n.y };
        let z: i64 = if rel { n.z - p.z } else { n.z };
        proof {
            reveal_strlit("X");
            reveal_strlit(" Y");
            reveal_strlit(" Z");
            reveal_strlit("G1 ");
            reveal_strlit("G0 ");
            reveal_strlit(" E");
            reveal_strlit(" F");
        }
        let ghost coords_spec = lit("X") + fixed_text(x as int, 3) + lit(" Y")
            + fixed_text(y as int, 3) + lit(" Z") + fixed_text(z as int, 3);
        let mut coords: Vec<u8> = Vec::new();
        put_str(&mut coords, "X");
        let mut t = fmt_fixed(x, 3);
        coords.append(&mut t);
        put_str(&mut coords, " Y");
        let mut t = fmt_fixed(y, 3);
        coords.append(&mut t);
        put_str(&mut coords, " Z");
        let mut t = fmt_fixed(z, 3);
        coords.append(&mut t);
        proof {
            assert(coords@ =~= coords_spec);
        }
        let dist = distance_3d(self.last_position, n);
        let extr = (destination == origin + 1 && layer.extrusions.contains_key(&origin))
            || (origin == destination + 1 && layer.extrusions.contains_key(&destination));
        proof {
            assert(extr == seg_extrudes(l, o, d));
        }
        let mut line: Vec<u8> = Vec::new();
        let mut shown: i64 = 0;
        if extr {
            let ekey = if destination == origin + 1 { origin } else { destination };
            let e0 = *layer.extrusions.get(&ekey).unwrap();
            shown = if self.extruder_mode == CoordinatesMode::Absolute {
                match e0.checked_add(self.last_extrusion) {
                    Some(v) => if v == i64::MIN {
                        i64::MIN + 1
                    } else {
                        v
                    },
                    None => if e0 > 0 {
                        i64::MAX
                    } else {
                        i64::MIN + 1
                    },
                }
            } else {
                e0
            };
            proof {
                assert(shown as int == if m.extruder_mode is Absolute {
                    sat_add_i64(e0 as int, m.last_extrusion as int)
                } else {
                    e0 as int
                });
            }
            put_str(&mut line, "G1 ");
            let mut c = coords;
            line.append(&mut c);
            put_str(&mut line, " E");
            let mut t = fmt_fixed(shown, 5);
            line.append(&mut t);
            proof {
                assert(line@ =~= lit("G1 ") + coords_spec + lit(" E")
                    + fixed_text(shown as int, 5));
            }
        } else {
            put_str(&mut line, "G0 ");
            let mut c = coords;
            line.append(&mut c);
            proof {
                assert(line@ =~= lit("G0 ") + coords_spec);
            }
        }
        let fkey: u32 = if destination == origin + 1 {
            origin
        } else if origin == destination + 1 {
            destination
        } else {
            0
        };
        proof {
            assert(fkey == feed_key(o, d));
        }
        let f: i64 = match layer.feedrates.get(&fkey) {
            Some(v) => *v,
            None => 0,
        };
        let ghost body_spec = line@;
        if f > 0 {
            put_str(&mut line, " F");
            let mut t = fmt_fixed(f, 3);
            line.append(&mut t);
            proof {
                assert(line@ =~= body_spec + lit(" F") + fixed_text(f as int, 3));
            }
        }
        let ghost line_spec = line@;
        if extr {
            self.last_extrusion = shown;
            self.stats.increment_extrusion(dist);
        } else {
            self.stats.increment_travel(dist);
        }
        let mut lb = line;
        self.contents.append(&mut lb);
        self.contents.push(10);
        self.last_position = n;
        proof {
            reveal(add_line_spec);
            let target = add_line_spec(m, l, o, d);
            assert(self@.contents =~= m.contents + line_spec + seq![10u8]);
            assert(line_spec =~= target.contents.subrange(m.contents.len() as int,
                target.contents.len() - 1)) by {
                assert(target.contents =~= m.contents + line_spec + seq![10u8]);
            }
            assert(self@.contents =~= target.contents);
            assert(self@ =~= target);
        }
    }
}

/// The motion commands one consecutive tour pair expands to. An adjacent
/// step forward walks the merged run node by node; backward walks it in
/// reverse; any other pair is a single direct motion.
pub open spec fn expand_pair(prev: int, next: int, from: int, to: int) -> Seq<(int, int)> {
    if next - prev == 1 {
        if to >= from {
            Seq::new((to - from) as nat, |k: int| (from + k, from + k + 1))
        } else {
            Seq::empty()
        }
    } else if prev - next == 1 {
        if from >= to {
            Seq::new((from - to) as nat, |k: int| (from - k, from - k - 1))
        } else {
            Seq::empty()
        }
    } else {
        seq![(from, to)]
    }
}

/// The output state after emitting each motion of `ps` in order.
pub open spec fn apply_pairs(m: OptModel, l: LayerModel, ps: Seq<(int, int)>) -> OptModel
    decreases ps.len(),
{
    if ps.len() == 0 {
        m
    } else {
        apply_pairs(add_line_spec(m, l, ps[0].0, ps[0].1), l, ps.skip(1))
    }
}

/// All motions of a tour: each id is expanded against its predecessor,
/// starting from encoded node 1.
pub open spec fn tour_pairs(merges: Seq<u32>, prev: int, ids: Seq<u32>) -> Seq<(int, int)>
    decreases ids.len(),
{
    if ids.len() == 0 {
        Seq::empty()
    } else {
        expand_pair(prev, ids[0] as int, merges[prev - 1] as int, merges[ids[0] - 1] as int)
            + tour_pairs(merges, ids[0] as int, ids.skip(1))
    }
}

/// Emitting a concatenation is emitting each part in turn.
pub proof fn lemma_apply_pairs_concat(m: OptModel, l: LayerModel, a: Seq<(int, int)>,
    b: Seq<(int, int)>)
    ensures
        apply_pairs(m, l, a + b) == apply_pairs(apply_pairs(m, l, a), l, b),
    decreases a.len(),
{
    if a.len() == 0 {
        assert(a + b =~= b);
    } else {
        assert((a + b)[0] == a[0]);
        assert((a + b).skip(1) =~= a.skip(1) + b);
        lemma_apply_pairs_concat(add_line_spec(m, l, a[0].0, a[0].1), l, a.skip(1), b);
    }
}

/// Emitting one more motion after a list.
pub proof fn lemma_apply_pairs_snoc(m: OptModel, l: LayerModel, ps: Seq<(int, int)>,
    p: (int, int))
    ensures
        apply_pairs(m, l, ps.push(p)) == add_line_spec(apply_pairs(m, l, ps), l, p.0, p.1),
    decreases ps.len(),
{
    if ps.len() == 0 {
        reveal_with_fuel(apply_pairs, 3);
        assert(ps.push(p)[0] == p);
        assert(ps.push(p).skip(1) =~= Seq::<(int, int)>::empty());
        assert(apply_pairs(m, l, ps.push(p)) == add_line_spec(m, l, p.0, p.1));
    } else {
        assert(ps.push(p)[0] == ps[0]);
        assert(ps.push(p).skip(1) =~= ps.skip(1).push(p));
        lemma_apply_pairs_snoc(add_line_spec(m, l, ps[0].0, ps[0].1), l, ps.skip(1), p);
    }
}

impl Optimizer {
    /// Expands one merged run forward: the segments `from` to `from + 1`
    /// through `to - 1` to `to`.
    #[verifier::loop_isolation(false)]
    fn walk_forward(&mut self, layer: &GCodeLayer, from: u32, to: u32)
        requires
            old(self).wf(),
            layer@.wf(),
            1 <= from <= to <= layer@.nodes.len(),
        ensures
            final(self)@ == apply_pairs(old(self)@, layer@, Seq::new((to - from) as nat,
                |k: int| (from + k, from + k + 1))),
            final(self).wf(),
    {
        let ghost entry = self@;
        let ghost l = layer@;
        let ghost pairs = Seq::new((to - from) as nat, |k: int| (from + k, from + k + 1));
        let mut i = from;
        proof {
            assert(pairs.take(0) =~= Seq::<(int, int)>::empty());
        }
        while i < to
            invariant
                from <= i <= to,
                self.wf(),
                self@ == apply_pairs(entry, l, pairs.take(i - from)),
            decreases to - i,
        {
            self.add_line(layer, i, i + 1);
            proof {
                assert(pairs.take(i + 1 - from) =~= pairs.take(i - from).push(pairs[i - from]));
                lemma_apply_pairs_snoc(entry, l, pairs.take(i - from), pairs[i - from]);
            }
            i = i + 1;
        }
        proof {
            assert(pairs.take(to - from) =~= pairs);
        }
    }

    /// Expands one merged run backward: the segments `from` down to `to`,
    /// each reversed.
    #[verifier::loop_isolation(false)]
    fn walk_backward(&mut self, layer: &GCodeLayer, from: u32, to: u32)
        requires
            old(self).wf(),
            layer@.wf(),
            1 <= to <= from <= layer@.nodes.len(),
        ensures
            final(self)@ == apply_pairs(old(self)@, layer@, Seq::new((from - to) as nat,
                |k: int| (from - k, from - k - 1))),
            final(self).wf(),
    {
        let ghost entry = self@;
        let ghost l = layer@;
        let ghost pairs = Seq::new((from - to) as nat, |k: int| (from - k, from - k - 1));
        let mut i = from;
        proof {
            assert(pairs.take(0) =~= Seq::<(int, int)>::empty());
        }
        while i > to
            invariant
                to <= i <= from,
                self.wf(),
                self@ == apply_pairs(entry, l, pairs.take(from - i)),
            decreases i - to,
        {
            self.add_line(layer, i, i - 1);
            proof {
                assert(pairs.take(from - i + 1) =~= pairs.take(from - i).push(pairs[from - i]));
                lemma_apply_pairs_snoc(entry, l, pairs.take(from - i), pairs[from - i]);
            }
            i = i - 1;
        }
        proof {
            assert(pairs.take(from - to) =~= pairs);
        }
    }

    /// Walks the solver's tour for one layer, expanding every consecutive
    /// pair of encoded nodes into motion commands.
    #[verifier::loop_isolation(false)]
    #[verifier::rlimit(100)]
    pub fn read_optimized_tour(&mut self, layer: &GCodeLayer, merges: &crate::encoder::MergeMap,
        tour: &Vec<u32>)
        requires
            old(self).wf(),
            layer@.wf(),
            forall|j: int| 0 <= j < merges@.len()
                ==> 1 <= #[trigger] merges@[j] <= layer@.nodes.len(),
            forall|j1: int, j2: int| 0 <= j1 <= j2 < merges@.len()
                ==> merges@[j1] <= merges@[j2],
            forall|j: int| 0 <= j < tour@.len() ==> 1 <= #[trigger] tour@[j] <= merges@.len(),
            tour@.len() > 0 ==> merges@.len() >= 1,
            merges@.len() < u32::MAX,
        ensures
            final(self)@ == apply_pairs(old(self)@, layer@, tour_pairs(merges@, 1, tour@)),
            final(self).wf(),
    {
        let ghost m0 = self@;
        let ghost l = layer@;
        let ghost mg = merges@;
        let mut prev: u32 = 1;
        let mut t: usize = 0;
        proof {
            assert(tour@.skip(0) =~= tour@);
        }
        while t < tour.len()
            invariant
                0 <= t <= tour@.len(),
                t > 0 ==> 1 <= prev <= mg.len(),
                t == 0 ==> prev == 1,
                self.wf(),
                apply_pairs(m0, l, tour_pairs(mg, 1, tour@)) == apply_pairs(self@, l,
                    tour_pairs(mg, prev as int, tour@.skip(t as int))),
            decreases tour@.len() - t,
        {
            let node = tour[t];
            let from = merges.get(prev).unwrap();
            let to = merges.get(node).unwrap();
            let ghost pairs = expand_pair(prev as int, node as int, from as int, to as int);
            let ghost entry = self@;
            proof {
                assert(tour@.skip(t as int)[0] == tour@[t as int]);
                assert(tour@.skip(t as int).skip(1) =~= tour@.skip(t as int + 1));
                assert(tour_pairs(mg, prev as int, tour@.skip(t as int)) == pairs + tour_pairs(
                    mg, node as int, tour@.skip(t as int + 1)));
                lemma_apply_pairs_concat(entry, l, pairs, tour_pairs(mg, node as int,
                    tour@.skip(t as int + 1)));
            }
            if node == prev + 1 {
                self.walk_forward(layer, from, to);
                proof {
                    assert(pairs =~= Seq::new((to - from) as nat, |k: int| (from + k,
                        from + k + 1)));
                }
            } else if prev == node + 1 {
                self.walk_backward(layer, from, to);
                proof {
                    assert(pairs =~= Seq::new((from - to) as nat, |k: int| (from - k,
                        from - k - 1)));
                }
            } else {
                self.add_line(layer, from, to);
                proof {
                    reveal_with_fuel(apply_pairs, 3);
                    assert(pairs =~= seq![(from as int, to as int)]);
                    assert(pairs[0] == (from as int, to as int));
                    assert(pairs.skip(1) =~= Seq::<(int, int)>::empty());
                    assert(apply_pairs(entry, l, pairs) == add_line_spec(entry, l, from as int,
                        to as int));
                }
            }
            proof {
                assert(self@ == apply_pairs(entry, l, pairs));
            }
            prev = node;
            t = t + 1;
        }
        proof {
            assert(tour_pairs(mg, prev as int, tour@.skip(t as int))
                =~= Seq::<(int, int)>::empty());
        }
    }

    /// Emits a small layer's nodes in their original order, without the
    /// solver: first a travel to node 1, then each consecutive segment.
    #[verifier::loop_isolation(false)]
    pub fn add_direct_path(&mut self, layer: &GCodeLayer)
        requires
            old(self).wf(),
            layer@.wf(),
            layer@.nodes.len() >= 1,
        ensures
            final(self)@ == apply_pairs(old(self)@, layer@,
                direct_pairs(layer@.nodes.len() as int)),
            final(self).wf(),
    {
        let ghost m0 = self@;
        let ghost l = layer@;
        let ghost ps = direct_pairs(l.nodes.len() as int);
        self.add_line(layer, 1, 1);
        proof {
            reveal_with_fuel(apply_pairs, 3);
            assert(ps[0] == (1int, 1int));
            assert(ps.take(1) =~= seq![(1int, 1int)]);
            assert(ps.take(1)[0] == (1int, 1int));
            assert(ps.take(1).skip(1) =~= Seq::<(int, int)>::empty());
            assert(apply_pairs(m0, l, ps.take(1)) == add_line_spec(m0, l, 1, 1));
            assert(self@ == apply_pairs(m0, l, ps.take(1)));
        }
        let mut i: u32 = 2;
        while (i as usize) <= layer.nodes.len()
            invariant
                2 <= i <= l.nodes.len() + 1,
                self.wf(),
                self@ == apply_pairs(m0, l, ps.take(i - 1)),
            decreases l.nodes.len() + 1 - i,
        {
            self.add_line(layer, i - 1, i);
            proof {
                assert(ps.take(i as int) =~= ps.take(i - 1).push(ps[i - 1]));
                assert(ps[i - 1] == (i - 1, i as int));
                lemma_apply_pairs_snoc(m0, l, ps.take(i - 1), ps[i - 1]);
            }
            i = i + 1;
        }
        proof {
            assert(ps.take(i - 1) =~= ps);
        }
    }
}

/// The motions of the small-layer path over `n` nodes: a move to node 1,
/// then the segments 1 to 2 through n - 1 to n.
pub open spec fn direct_pairs(n: int) -> Seq<(int, int)> {
    seq![(1int, 1int)] + Seq::new((n - 1) as nat, |k: int| (k + 1, k + 2))
}

/// The small-layer path keeps the original order: it emits one motion per
/// node, with destinations exactly 1, 2, ..., n.
pub proof fn lemma_direct_destinations(n: int)
    requires
        n >= 1,
    ensures
        direct_pairs(n).len() == n,
        forall|j: int| 0 <= j < n ==> (#[trigger] direct_pairs(n)[j]).1 == j + 1,
{
}

/// Reconstruction expansion counts: a forward adjacent pair yields
/// `to - from` motion commands, a backward one `from - to`, and any other
/// exactly one.
pub proof fn lemma_expansion_counts(prev: int, next: int, from: int, to: int)
    requires
        next - prev == 1 ==> from <= to,
        prev - next == 1 ==> to <= from,
    ensures
        next - prev == 1 ==> expand_pair(prev, next, from, to).len() == to - from,
        prev - next == 1 && next - prev != 1 ==> expand_pair(prev, next, from, to).len()
            == from - to,
        next - prev != 1 && prev - next != 1 ==> expand_pair(prev, next, from, to).len() == 1,
{
}

/// `p` walks the segment between `s` and `s + 1`, in either direction.
pub open spec fn covers_seg(p: (int, int), s: int) -> bool {
    (p.0 == s && p.1 == s + 1) || (p.0 == s + 1 && p.1 == s)
}

/// Mandatory segments inside one merged run survive reconstruction: when a
/// consecutive tour pair expands a run, it walks each segment of the run
/// exactly once — the pair at offset `j` walks segment `from + j` going
/// forward, segment `from - 1 - j` going backward — and that motion
/// extrudes exactly when the segment is mandatory, whichever direction the
/// tour chose.
pub proof fn lemma_run_extrusion_preserved(l: LayerModel, prev: int, next: int, from: int,
    to: int)
    requires
        1 <= from <= 2_000_000_000,
        1 <= to <= 2_000_000_000,
        (next - prev == 1 && from <= to) || (prev - next == 1 && to <= from),
    ensures
        ({
            let ps = expand_pair(prev, next, from, to);
            &&& next - prev == 1 ==> {
                &&& forall|j: int| 0 <= j < ps.len() ==> covers_seg(#[trigger] ps[j], from + j)
                &&& forall|j: int, s: int| 0 <= j < ps.len()
                    && #[trigger] covers_seg(ps[j], s) ==> s == from + j
                &&& forall|j: int| 0 <= j < ps.len()
                    ==> (seg_extrudes(l, (#[trigger] ps[j]).0, ps[j].1)
                        <==> l.extrusions.dom().contains((from + j) as u32))
            }
            &&& prev - next == 1 ==> {
                &&& forall|j: int| 0 <= j < ps.len()
                    ==> covers_seg(#[trigger] ps[j], from - 1 - j)
                &&& forall|j: int, s: int| 0 <= j < ps.len()
                    && #[trigger] covers_seg(ps[j], s) ==> s == from - 1 - j
                &&& forall|j: int| 0 <= j < ps.len()
                    ==> (seg_extrudes(l, (#[trigger] ps[j]).0, ps[j].1)
                        <==> l.extrusions.dom().contains((from - 1 - j) as u32))
            }
        }),
{
    let ps = expand_pair(prev, next, from, to);
    if next - prev == 1 {
        assert forall|j: int| 0 <= j < ps.len() implies (seg_extrudes(l, (#[trigger] ps[j]).0,
            ps[j].1) <==> l.extrusions.dom().contains((from + j) as u32)) by {
            assert(ps[j] == (from + j, from + j + 1));
        }
    } else {
        assert forall|j: int| 0 <= j < ps.len() implies (seg_extrudes(l, (#[trigger] ps[j]).0,
            ps[j].1) <==> l.extrusions.dom().contains((from - 1 - j) as u32)) by {
            assert(ps[j] == (from - j, from - j - 1));
        }
    }
}

/// What reading a result file can fail with.
#[derive(Clone, Copy, PartialEq, Eq, Structural, Debug)]
pub enum TourError {
    /// No line opens the tour section.
    MissingSection,
    /// A tour line is not a plain decimal integer in range.
    BadInteger,
    /// A tour entry names no encoded node of this layer.
    NodeOutOfRange,
    /// The file ends before the terminating entry.
    MissingTerminator,
}

/// `l` opens the tour section.
pub open spec fn starts_tour_section(l: Seq<u8>) -> bool {
    l.len() >= 12 && l.take(12) == lit("TOUR_SECTION")
}

/// The first line at or past `i` that opens the tour section, or the count
/// of lines.
pub open spec fn first_tour_line(ls: Seq<Seq<u8>>, i: int) -> int
    decreases ls.len() - i when 0 <= i <= ls.len()
{
    if i >= ls.len() {
        i
    } else if starts_tour_section(ls[i]) {
        i
    } else {
        first_tour_line(ls, i + 1)
    }
}

/// The encoded node ids read from the lines at `i` on, up to the `-1`
/// terminator; every id must name one of `count` encoded nodes.
pub open spec fn read_tour(ls: Seq<Seq<u8>>, i: int, count: int) -> Result<Seq<u32>, TourError>
    decreases ls.len() - i when 0 <= i <= ls.len()
{
    if i >= ls.len() {
        Err(TourError::MissingTerminator)
    } else if !(crate::text::int_valid(ls[i]) && -i64::MAX <= crate::text::int_value(ls[i])
        <= i64::MAX) {
        Err(TourError::BadInteger)
    } else if crate::text::int_value(ls[i]) == -1 {
        Ok(Seq::empty())
    } else if 1 <= crate::text::int_value(ls[i]) <= count {
        match read_tour(ls, i + 1, count) {
            Ok(t) => Ok(seq![crate::text::int_value(ls[i]) as u32] + t),
            Err(e) => Err(e),
        }
    } else {
        Err(TourError::NodeOutOfRange)
    }
}

/// The tour a result file holds: the ids after the tour-section marker, up
/// to the terminator.
pub open spec fn tour_spec(result: Seq<u8>, count: int) -> Result<Seq<u32>, TourError> {
    let ls = crate::text::lines(result);
    let j = first_tour_line(ls, 0);
    if j >= ls.len() {
        Err(TourError::MissingSection)
    } else {
        read_tour(ls, j + 1, count)
    }
}

/// `l` opens the tour section, executably.
fn is_tour_header(l: &[u8]) -> (r: bool)
    ensures
        r == starts_tour_section(l@),
{
    proof {
        reveal_strlit("TOUR_SECTION");
    }
    let r = l.len() >= 12 && l[0] == 84 && l[1] == 79 && l[2] == 85 && l[3] == 82 && l[4] == 95
        && l[5] == 83 && l[6] == 69 && l[7] == 67 && l[8] == 84 && l[9] == 73 && l[10] == 79
        && l[11] == 78;
    proof {
        if r {
            assert(l@.take(12) =~= lit("TOUR_SECTION"));
        } else if starts_tour_section(l@) {
            assert(l@.take(12) =~= lit("TOUR_SECTION"));
            assert(l@[0] == lit("TOUR_SECTION")[0]);
            assert(l@[1] == lit("TOUR_SECTION")[1]);
            assert(l@[2] == lit("TOUR_SECTION")[2]);
            assert(l@[3] == lit("TOUR_SECTION")[3]);
            assert(l@[4] == lit("TOUR_SECTION")[4]);
            assert(l@[5] == lit("TOUR_SECTION")[5]);
            assert(l@[6] == lit("TOUR_SECTION")[6]);
            assert(l@[7] == lit("TOUR_SECTION")[7]);
            assert(l@[8] == lit("TOUR_SECTION")[8]);
            assert(l@[9] == lit("TOUR_SECTION")[9]);
            assert(l@[10] == lit("TOUR_SECTION")[10]);
            assert(l@[11] == lit("TOUR_SECTION")[11]);
        }
    }
    r
}

/// Reads the solver's result: finds the tour section and collects encoded
/// node ids until the terminator. Exactly the faults `tour_spec` names are
/// reported: a missing section, a line that is not an integer, an id
/// outside the merge map, a missing terminator.
#[verifier::loop_isolation(false)]
#[verifier::rlimit(60)]
pub fn parse_tour(result: &[u8], count: usize) -> (r: Result<Vec<u32>, TourError>)
    requires
        count <= u32::MAX,
    ensures
        match r {
            Ok(v) => tour_spec(result@, count as int) is Ok && v@ == tour_spec(result@,
                count as int)->Ok_0,
            Err(e) => tour_spec(result@, count as int) == Err::<Seq<u32>, TourError>(e),
        },
{
    let ghost s = result@;
    let ghost ls = crate::text::lines(s);
    let mut i: usize = 0;
    let ghost mut li: int = 0;
    let mut found = false;
    proof {
        assert(crate::text::lines_from(s, 0) =~= ls.skip(0));
        assert(ls.skip(0) =~= ls);
    }
    while !found && i < result.len()
        invariant
            0 <= i <= s.len(),
            0 <= li <= ls.len(),
            crate::text::lines_from(s, i as nat) =~= ls.skip(li),
            !found ==> first_tour_line(ls, 0) == first_tour_line(ls, li),
            found ==> li >= 1 && first_tour_line(ls, 0) == li - 1 && li - 1 < ls.len(),
        decreases s.len() - i, 1int - (if found { 1int } else { 0int }),
    {
        proof {
            crate::text::lemma_find_from(s, i as nat, 10);
        }
        let nl = crate::text::find_byte(result, i, 10);
        let mut stop = nl;
        if nl > i && result[nl - 1] == 13 {
            stop = nl - 1;
        }
        let line = vstd::slice::slice_subrange(result, i, stop);
        proof {
            assert(line@ =~= crate::text::strip_cr(s.subrange(i as int, crate::text::find_from(
                s, i as nat, 10) as int)));
            assert(ls.skip(li)[0] == line@);
            assert(ls[li] == line@);
        }
        let hdr = is_tour_header(line);
        let ghost nextrest = if crate::text::find_from(s, i as nat, 10) < s.len() {
            crate::text::lines_from(s, crate::text::find_from(s, i as nat, 10) + 1)
        } else {
            Seq::<Seq<u8>>::empty()
        };
        proof {
            assert(crate::text::lines_from(s, i as nat) == seq![line@] + nextrest);
            assert((seq![line@] + nextrest).skip(1) =~= nextrest);
            assert(ls.skip(li).skip(1) =~= ls.skip(li + 1));
            assert(nextrest =~= ls.skip(li + 1));
        }
        if nl < result.len() {
            i = nl + 1;
        } else {
            i = nl;
            proof {
                assert(crate::text::lines_from(s, i as nat) =~= Seq::<Seq<u8>>::empty());
            }
        }
        proof {
            li = li + 1;
            assert(crate::text::lines_from(s, i as nat) =~= ls.skip(li));
        }
        if hdr {
            found = true;
        }
    }
    if !found {
        proof {
            assert(ls.skip(li) =~= Seq::<Seq<u8>>::empty());
            assert(li == ls.len());
            assert(first_tour_line(ls, 0) == ls.len());
        }
        return Err(TourError::MissingSection);
    }
    // read ids until the terminator
    let mut ids: Vec<u32> = Vec::new();
    loop
        invariant
            0 <= i <= s.len(),
            0 <= li <= ls.len(),
            count <= u32::MAX,
            crate::text::lines_from(s, i as nat) =~= ls.skip(li),
            tour_spec(s, count as int) == (match read_tour(ls, li, count as int) {
                Ok(t) => Ok::<Seq<u32>, TourError>(ids@ + t),
                Err(e) => Err::<Seq<u32>, TourError>(e),
            }),
        decreases s.len() - i + 1 - (if i >= s.len() { 1int } else { 0int }),
    {
        if i >= result.len() {
            proof {
                assert(ls.skip(li) =~= Seq::<Seq<u8>>::empty());
                assert(li == ls.len());
                assert(read_tour(ls, li, count as int) == Err::<Seq<u32>, TourError>(
                    TourError::MissingTerminator));
            }
            return Err(TourError::MissingTerminator);
        }
        proof {
            crate::text::lemma_find_from(s, i as nat, 10);
            assert(li < ls.len()) by {
                assert(ls.skip(li).len() > 0);
            }
        }
        let nl = crate::text::find_byte(result, i, 10);
        let mut stop = nl;
        if nl > i && result[nl - 1] == 13 {
            stop = nl - 1;
        }
        let line = vstd::slice::slice_subrange(result, i, stop);
        proof {
            assert(line@ =~= crate::text::strip_cr(s.subrange(i as int, crate::text::find_from(
                s, i as nat, 10) as int)));
            assert(ls.skip(li)[0] == line@);
            assert(ls[li] == line@);
        }
        let v = match crate::text::parse_int(line) {
            Some(v) => v,
            None => {
                proof {
                    assert(read_tour(ls, li, count as int) == Err::<Seq<u32>, TourError>(
                        TourError::BadInteger));
                }
                return Err(TourError::BadInteger);
            },
        };
        if v == -1 {
            proof {
                assert(read_tour(ls, li, count as int) == Ok::<Seq<u32>, TourError>(
                    Seq::empty()));
                assert(ids@ + Seq::<u32>::empty() =~= ids@);
            }
            return Ok(ids);
        }
        if v < 1 || v > count as i64 {
            proof {
                assert(read_tour(ls, li, count as int) == Err::<Seq<u32>, TourError>(
                    TourError::NodeOutOfRange));
            }
            return Err(TourError::NodeOutOfRange);
        }
        let ghost nextrest = if crate::text::find_from(s, i as nat, 10) < s.len() {
            crate::text::lines_from(s, crate::text::find_from(s, i as nat, 10) + 1)
        } else {
            Seq::<Seq<u8>>::empty()
        };
        proof {
            assert(crate::text::lines_from(s, i as nat) == seq![line@] + nextrest);
            assert((seq![line@] + nextrest).skip(1) =~= nextrest);
            assert(ls.skip(li).skip(1) =~= ls.skip(li + 1));
            assert(nextrest =~= ls.skip(li + 1));
        }
        let ghost oldids = ids@;
        ids.push(v as u32);
        if nl < result.len() {
            i = nl + 1;
        } else {
            i = nl;
            proof {
                assert(crate::text::lines_from(s, i as nat) =~= Seq::<Seq<u8>>::empty());
            }
        }
        proof {
            li = li + 1;
            assert(crate::text::lines_from(s, i as nat) =~= ls.skip(li));
            assert(read_tour(ls, li - 1, count as int) == (match read_tour(ls, li,
                count as int) {
                Ok(t) => Ok::<Seq<u32>, TourError>(seq![v as u32] + t),
                Err(e) => Err::<Seq<u32>, TourError>(e),
            }));
            assert forall|t: Seq<u32>| true implies oldids + (seq![v as u32] + t)
                =~= ids@ + t by {}
        }
    }
}

/// The opening of the output program: home, the unit and mode commands the
/// output is written in, the preamble carried over, and an extrusion reset.
pub open spec fn preamble_text(pos: CoordinatesMode, ext: CoordinatesMode, units: UnitsMode,
    start_commands: Seq<u8>) -> Seq<u8> {
    lit("G28\n") + (match units {
        UnitsMode::Millimeters => lit("G21\n"),
        UnitsMode::Inches => lit("G20\n"),
        UnitsMode::NotSet => Seq::<u8>::empty(),
    }) + (match pos {
        CoordinatesMode::Absolute => lit("G90\n"),
        CoordinatesMode::Relative => lit("G91\n"),
        CoordinatesMode::NotSet => Seq::<u8>::empty(),
    }) + (match ext {
        CoordinatesMode::Absolute => lit("M82\n"),
        CoordinatesMode::Relative => lit("M83\n"),
        CoordinatesMode::NotSet => Seq::<u8>::empty(),
    }) + start_commands + lit("G92 E0\n")
}

/// The closing of the output program: fan off, then the carried postamble.
pub open spec fn postamble_text(end_commands: Seq<u8>) -> Seq<u8> {
    lit("M107\n") + end_commands
}

impl Optimizer {
    /// An empty output program in the given modes, starting at the origin.
    pub fn new(position_mode: CoordinatesMode, extruder_mode: CoordinatesMode) -> (r: Optimizer)
        ensures
            r.position_mode == position_mode,
            r.extruder_mode == extruder_mode,
            r.contents@ == Seq::<u8>::empty(),
            r.last_position == (Point { x: 0, y: 0, z: 0 }),
            r.last_extrusion == 0,
            r.stats.extrusion_distance == 0,
            r.stats.travel_distance == 0,
            r.stats.units_mode == UnitsMode::NotSet,
            r.wf(),
    {
        Optimizer {
            position_mode,
            extruder_mode,
            contents: Vec::new(),
            last_position: Point { x: 0, y: 0, z: 0 },
            last_extrusion: 0,
            stats: GCodeStats {
                extrusion_distance: 0,
                travel_distance: 0,
                units_mode: UnitsMode::NotSet,
            },
        }
    }

    /// Takes the unit of length over from the program being reordered.
    pub fn set_units(&mut self, units: UnitsMode)
        ensures
            final(self)@ == (OptModel { units_mode: units, ..old(self)@ }),
    {
        self.stats.units_mode = units;
        proof {
            assert(self@ =~= (OptModel { units_mode: units, ..old(self)@ }));
        }
    }

    /// Opens the output program.
    pub fn start_file(&mut self, start_commands: &[u8])
        ensures
            final(self)@ == (OptModel {
                contents: old(self)@.contents + preamble_text(old(self)@.position_mode,
                    old(self)@.extruder_mode, old(self)@.units_mode, start_commands@),
                ..old(self)@
            }),
    {
        proof {
            reveal_strlit("G28\n");
            reveal_strlit("G21\n");
            reveal_strlit("G20\n");
            reveal_strlit("G90\n");
            reveal_strlit("G91\n");
            reveal_strlit("M82\n");
            reveal_strlit("M83\n");
            reveal_strlit("G92 E0\n");
        }
        put_str(&mut self.contents, "G28\n");
        match self.stats.units_mode {
            UnitsMode::Millimeters => put_str(&mut self.contents, "G21\n"),
            UnitsMode::Inches => put_str(&mut self.contents, "G20\n"),
            UnitsMode::NotSet => (),
        }
        match self.position_mode {
            CoordinatesMode::Absolute => put_str(&mut self.contents, "G90\n"),
            CoordinatesMode::Relative => put_str(&mut self.contents, "G91\n"),
            CoordinatesMode::NotSet => (),
        }
        match self.extruder_mode {
            CoordinatesMode::Absolute => put_str(&mut self.contents, "M82\n"),
            CoordinatesMode::Relative => put_str(&mut self.contents, "M83\n"),
            CoordinatesMode::NotSet => (),
        }
        crate::text::put_bytes(&mut self.contents, start_commands);
        put_str(&mut self.contents, "G92 E0\n");
        proof {
            assert(self@.contents =~= old(self)@.contents + preamble_text(old(self)@.position_mode,
                old(self)@.extruder_mode, old(self)@.units_mode, start_commands@));
            assert(self@ =~= (OptModel { contents: self@.contents, ..old(self)@ }));
        }
    }

    /// Appends a layer's held trailing commands, verbatim.
    pub fn append_end_commands(&mut self, layer: &GCodeLayer)
        ensures
            final(self)@ == (OptModel {
                contents: old(self)@.contents + layer@.end_commands,
                ..old(self)@
            }),
    {
        crate::text::put_bytes(&mut self.contents, layer.end_commands.as_slice());
        proof {
            assert(self@ =~= (OptModel {
                contents: old(self)@.contents + layer@.end_commands,
                ..old(self)@
            }));
        }
    }

    /// Closes the output program.
    pub fn finish_file(&mut self, end_commands: &[u8])
        ensures
            final(self)@ == (OptModel {
                contents: old(self)@.contents + postamble_text(end_commands@),
                ..old(self)@
            }),
    {
        proof {
            reveal_strlit("M107\n");
        }
        put_str(&mut self.contents, "M107\n");
        crate::text::put_bytes(&mut self.contents, end_commands);
        proof {
            assert(self@.contents =~= old(self)@.contents + postamble_text(end_commands@));
            assert(self@ =~= (OptModel { contents: self@.contents, ..old(self)@ }));
        }
    }
}

/// One summary row per layer: its index, its node count, and the encoded
/// node count it merged to.
pub open spec fn csv_rows(rows: Seq<(u64, u64, u64)>, from: int) -> Seq<u8>
    decreases rows.len() - from when 0 <= from
{
    if from >= rows.len() {
        Seq::empty()
    } else {
        crate::text::dec_digits(rows[from].0 as nat) + lit(",")
            + crate::text::dec_digits(rows[from].1 as nat) + lit(",")
            + crate::text::dec_digits(rows[from].2 as nat) + seq![10u8]
            + csv_rows(rows, from + 1)
    }
}

/// The whole merge-statistics table.
pub open spec fn csv_spec(rows: Seq<(u64, u64, u64)>) -> Seq<u8> {
    lit("Layer,Nodes,Merged\n") + csv_rows(rows, 0)
}

/// Writes the per-layer merge statistics table.
#[verifier::loop_isolation(false)]
pub fn csv_text(rows: &Vec<(u64, u64, u64)>) -> (r: Vec<u8>)
    ensures
        r@ == csv_spec(rows@),
{
    proof {
        reveal_strlit("Layer,Nodes,Merged\n");
        reveal_strlit(",");
    }
    let mut out: Vec<u8> = Vec::new();
    put_str(&mut out, "Layer,Nodes,Merged\n");
    let ghost head = out@;
    let mut j: usize = 0;
    while j < rows.len()
        invariant
            0 <= j <= rows@.len(),
            out@ + csv_rows(rows@, j as int) == head + csv_rows(rows@, 0),
        decreases rows@.len() - j,
    {
        let row = rows[j];
        let mut t = crate::text::fmt_u64(row.0);
        out.append(&mut t);
        put_str(&mut out, ",");
        let mut t = crate::text::fmt_u64(row.1);
        out.append(&mut t);
        put_str(&mut out, ",");
        let mut t = crate::text::fmt_u64(row.2);
        out.append(&mut t);
        out.push(10);
        j = j + 1;
        proof {
            assert(out@ + csv_rows(rows@, j as int) =~= head + csv_rows(rows@, 0));
        }
    }
    proof {
        assert(csv_rows(rows@, j as int) =~= Seq::<u8>::empty());
        assert(out@ =~= head + csv_rows(rows@, 0));
    }
    out
}

/// Every expanded pair emits exactly one motion command: the line it appends
/// ends in the only newline added. With the expansion counts above, a
/// forward adjacent pair therefore emits `to - from` commands, a backward
/// one `from - to`, and a jump exactly one.
pub proof fn lemma_add_line_one_command(m: OptModel, l: LayerModel, o: int, d: int)
    ensures
        ({
            let m2 = add_line_spec(m, l, o, d);
            &&& m2.contents.len() > m.contents.len()
            &&& m2.contents.take(m.contents.len() as int) == m.contents
            &&& crate::text::count_nl(m2.contents) == crate::text::count_nl(m.contents) + 1
        }),
{
    reveal(add_line_spec);
    reveal_strlit("X");
    reveal_strlit(" Y");
    reveal_strlit(" Z");
    reveal_strlit("G1 ");
    reveal_strlit("G0 ");
    reveal_strlit(" E");
    reveal_strlit(" F");
    let m2 = add_line_spec(m, l, o, d);
    let n = l.nodes[d - 1];
    let p = l.nodes[o - 1];
    let x = if m.position_mode is Relative { n.x - p.x } else { n.x as int };
    let y = if m.position_mode is Relative { n.y - p.y } else { n.y as int };
    let z = if m.position_mode is Relative { n.z - p.z } else { n.z as int };
    let coords = lit("X") + fixed_text(x, 3) + lit(" Y") + fixed_text(y, 3) + lit(" Z")
        + fixed_text(z, 3);
    assert(crate::text::no_nl(coords)) by {
        crate::text::lemma_fixed_text_no_nl(x, 3);
        crate::text::lemma_fixed_text_no_nl(y, 3);
        crate::text::lemma_fixed_text_no_nl(z, 3);
    }
    let extr = seg_extrudes(l, o, d);
    let e0 = l.extrusions[(if d - o == 1 { o } else { d }) as u32];
    let shown = if m.extruder_mode is Absolute { sat_add_i64(e0 as int, m.last_extrusion as int) }
        else { e0 as int };
    let body = if extr {
        lit("G1 ") + coords + lit(" E") + fixed_text(shown, 5)
    } else {
        lit("G0 ") + coords
    };
    assert(crate::text::no_nl(body)) by {
        crate::text::lemma_fixed_text_no_nl(shown, 5);
    }
    let fkey = feed_key(o, d);
    let f = if l.feedrates.dom().contains(fkey) { l.feedrates[fkey] } else { 0i64 };
    let line = if f > 0 { body + lit(" F") + fixed_text(f as int, 3) } else { body };
    assert(crate::text::no_nl(line)) by {
        crate::text::lemma_fixed_text_no_nl(f as int, 3);
    }
    assert(m2.contents == m.contents + line + seq![10u8]);
    assert(m2.contents.take(m.contents.len() as int) =~= m.contents);
    crate::text::lemma_count_nl_concat(m.contents + line, seq![10u8]);
    crate::text::lemma_count_nl_concat(m.contents, line);
    crate::text::lemma_no_nl_count(line);
    assert(crate::text::count_nl(seq![10u8]) == 1) by {
        reveal_with_fuel(crate::text::count_nl, 3);
        assert(seq![10u8].drop_last() =~= Seq::<u8>::empty());
        assert(seq![10u8].last() == 10u8);
    }
}

/// How many motions of `ps` walk the segment between `s` and `s + 1`.
pub open spec fn covers_count(ps: Seq<(int, int)>, s: int) -> nat
    decreases ps.len(),
{
    if ps.len() == 0 {
        0
    } else {
        (if covers_seg(ps[0], s) {
            1nat
        } else {
            0nat
        }) + covers_count(ps.skip(1), s)
    }
}

proof fn lemma_covers_count_concat(a: Seq<(int, int)>, b: Seq<(int, int)>, s: int)
    ensures
        covers_count(a + b, s) == covers_count(a, s) + covers_count(b, s),
    decreases a.len(),
{
    if a.len() == 0 {
        assert(a + b =~= b);
    } else {
        assert((a + b)[0] == a[0]);
        assert((a + b).skip(1) =~= a.skip(1) + b);
        lemma_covers_count_concat(a.skip(1), b, s);
    }
}

proof fn lemma_covers_count_run_fwd(from: int, to: int, s: int)
    requires
        from <= to,
    ensures
        covers_count(Seq::new((to - from) as nat, |k: int| (from + k, from + k + 1)), s)
            == if from <= s < to {
            1nat
        } else {
            0nat
        },
    decreases to - from,
{
    let ps = Seq::new((to - from) as nat, |k: int| (from + k, from + k + 1));
    if from < to {
        assert(ps[0] == (from, from + 1));
        assert(ps.skip(1) =~= Seq::new((to - (from + 1)) as nat, |k: int| (from + 1 + k,
            from + 1 + k + 1)));
        lemma_covers_count_run_fwd(from + 1, to, s);
        assert(covers_count(ps.skip(1), s) == if from + 1 <= s < to {
            1nat
        } else {
            0nat
        });
        assert(covers_seg(ps[0], s) <==> s == from);
        assert(covers_count(ps, s) == (if covers_seg(ps[0], s) {
            1nat
        } else {
            0nat
        }) + covers_count(ps.skip(1), s));
    } else {
        assert(ps.len() == 0);
    }
}

proof fn lemma_covers_count_run_bwd(from: int, to: int, s: int)
    requires
        to <= from,
    ensures
        covers_count(Seq::new((from - to) as nat, |k: int| (from - k, from - k - 1)), s)
            == if to <= s < from {
            1nat
        } else {
            0nat
        },
    decreases from - to,
{
    let ps = Seq::new((from - to) as nat, |k: int| (from - k, from - k - 1));
    if to < from {
        assert(ps[0] == (from, from - 1));
        assert(ps.skip(1) =~= Seq::new(((from - 1) - to) as nat, |k: int| (from - 1 - k,
            from - 1 - k - 1)));
        lemma_covers_count_run_bwd(from - 1, to, s);
        assert(covers_count(ps.skip(1), s) == if to <= s < from - 1 {
            1nat
        } else {
            0nat
        });
        assert(covers_seg(ps[0], s) <==> s == from - 1);
        assert(covers_count(ps, s) == (if covers_seg(ps[0], s) {
            1nat
        } else {
            0nat
        }) + covers_count(ps.skip(1), s));
    } else {
        assert(ps.len() == 0);
    }
}

/// How many consecutive tour pairs walk the fixed edge at `a`, in either
/// direction.
pub open spec fn adj_count(prev: int, ids: Seq<u32>, a: int) -> nat
    decreases ids.len(),
{
    if ids.len() == 0 {
        0
    } else {
        (if (prev == a && ids[0] == a + 1) || (prev == a + 1 && ids[0] == a) {
            1nat
        } else {
            0nat
        }) + adj_count(ids[0] as int, ids.skip(1), a)
    }
}

/// Every jump of the tour is genuine: when two consecutive tour entries are
/// not adjacent encoded ids, the original nodes they map to are not adjacent
/// either.
pub open spec fn jumps_ok(m: Seq<u32>, prev: int, ids: Seq<u32>) -> bool
    decreases ids.len(),
{
    if ids.len() == 0 {
        true
    } else {
        let q = ids[0] as int;
        &&& (q - prev != 1 && prev - q != 1 ==> m[q - 1] != m[prev - 1] + 1
            && m[prev - 1] != m[q - 1] + 1)
        &&& jumps_ok(m, q, ids.skip(1))
    }
}

/// Two intervals of a nondecreasing endpoint list meet only when equal.
proof fn lemma_interval_unique(m: Seq<u32>, k: int, j1: int, j2: int)
    requires
        forall|a: int, b: int| 0 <= a <= b < m.len() ==> m[a] <= m[b],
        1 <= j1 < m.len(),
        1 <= j2 < m.len(),
        m[j1 - 1] <= k < m[j1],
        m[j2 - 1] <= k < m[j2],
    ensures
        j1 == j2,
{
    if j1 < j2 {
        assert(m[j1] <= m[j2 - 1]);
    }
    if j2 < j1 {
        assert(m[j2] <= m[j1 - 1]);
    }
}

/// Some interval of a nondecreasing endpoint list holds `k`.
proof fn lemma_interval_find(m: Seq<u32>, k: int)
    requires
        m.len() >= 1,
        forall|a: int, b: int| 0 <= a <= b < m.len() ==> m[a] <= m[b],
        m[0] <= k < m.last(),
    ensures
        exists|j: int| 1 <= j < m.len() && m[j - 1] <= k < #[trigger] m[j],
    decreases m.len(),
{
    if k < m[1] {
        assert(m[1 - 1] <= k < m[1]);
    } else {
        let tail = m.skip(1);
        assert(tail[0] == m[1]);
        assert(tail.last() == m.last());
        assert(forall|a: int, b: int| 0 <= a <= b < tail.len() ==> tail[a] <= tail[b]);
        lemma_interval_find(tail, k);
        let j = choose|j: int| 1 <= j < tail.len() && tail[j - 1] <= k < #[trigger] tail[j];
        assert(m[j] == tail[j - 1]);
        assert(m[j + 1] == tail[j]);
        assert(m[(j + 1) - 1] <= k < m[j + 1]);
    }
}

/// The tour's motions walk the segment at `k` exactly as often as the tour
/// walks the encoded adjacency of the interval holding `k`.
proof fn lemma_tour_cover_from(m: Seq<u32>, prev: int, ids: Seq<u32>, k: int, j: int)
    requires
        forall|a: int, b: int| 0 <= a <= b < m.len() ==> m[a] <= m[b],
        1 <= j < m.len(),
        m[j - 1] <= k < m[j],
        1 <= prev <= m.len(),
        forall|t: int| 0 <= t < ids.len() ==> 1 <= #[trigger] ids[t] <= m.len(),
        jumps_ok(m, prev, ids),
    ensures
        covers_count(tour_pairs(m, prev, ids), k) == adj_count(prev, ids, j),
    decreases ids.len(),
{
    if ids.len() > 0 {
        let q = ids[0] as int;
        let from = m[prev - 1] as int;
        let to = m[q - 1] as int;
        let block = expand_pair(prev, q, from, to);
        let rest = tour_pairs(m, q, ids.skip(1));
        assert(tour_pairs(m, prev, ids) == block + rest);
        lemma_covers_count_concat(block, rest, k);
        if q == prev + 1 {
            assert(from <= to);
            lemma_covers_count_run_fwd(from, to, k);
            if prev == j {
                assert(covers_count(block, k) == 1);
            } else {
                if from <= k < to {
                    lemma_interval_unique(m, k, prev, j);
                    assert(false);
                }
                assert(covers_count(block, k) == 0);
            }
        } else if prev == q + 1 {
            assert(to <= from);
            lemma_covers_count_run_bwd(from, to, k);
            if q == j {
                assert(covers_count(block, k) == 1);
            } else {
                if to <= k < from {
                    lemma_interval_unique(m, k, q, j);
                    assert(false);
                }
                assert(covers_count(block, k) == 0);
            }
        } else {
            assert(block =~= seq![(from, to)]);
            assert(block[0] == (from, to));
            assert(block.skip(1) =~= Seq::<(int, int)>::empty());
            assert(!covers_seg((from, to), k)) by {
                assert(to != from + 1 && from != to + 1);
            }
            assert(covers_count(Seq::<(int, int)>::empty(), k) == 0);
            assert(covers_count(block, k) == (if covers_seg(block[0], k) {
                1nat
            } else {
                0nat
            }) + covers_count(block.skip(1), k));
            assert(covers_count(block, k) == 0);
        }
        assert(forall|t: int| 0 <= t < ids.skip(1).len() ==> 1 <= #[trigger] ids.skip(1)[t]
            <= m.len());
        lemma_tour_cover_from(m, q, ids.skip(1), k, j);
    }
}

/// Mandatory-edge extrusion preservation over a whole tour: when the tour
/// walks each anchor's fixed edge exactly once (in either direction) and
/// every other consecutive pair jumps between non-adjacent original nodes,
/// the reconstruction walks every mandatory segment exactly once, and the
/// motion that walks it extrudes.
pub proof fn lemma_tour_extrusion_preserved(l: LayerModel, thr: u64, ids: Seq<u32>, k: int)
    requires
        l.wf(),
        l.nodes.len() >= 1,
        1 <= k <= u32::MAX,
        l.extrusions.dom().contains(k as u32),
        forall|t: int| 0 <= t < ids.len() ==> 1 <= #[trigger] ids[t]
            <= encode_spec(l, thr).merges.len(),
        forall|a: u32| encode_spec(l, thr).anchors.contains(a)
            ==> adj_count(1, ids, a as int) == 1,
        jumps_ok(encode_spec(l, thr).merges, 1, ids),
    ensures
        ({
            let tp = tour_pairs(encode_spec(l, thr).merges, 1, ids);
            &&& covers_count(tp, k) == 1
            &&& forall|t: int| 0 <= t < tp.len() && covers_seg(#[trigger] tp[t], k)
                ==> seg_extrudes(l, tp[t].0, tp[t].1)
        }),
{
    let st = encode_spec(l, thr);
    let m = st.merges;
    crate::encoder::lemma_encode_ok(l, thr);
    crate::encoder::lemma_encode_runs(l, thr);
    assert(k + 1 <= l.nodes.len());
    assert(m[0] == 1);
    assert(m.last() == l.nodes.len());
    assert(m[0] <= k < m.last());
    assert(forall|a: int, b: int| 0 <= a <= b < m.len() ==> m[a] <= m[b]);
    lemma_interval_find(m, k);
    let j = choose|j: int| 1 <= j < m.len() && m[j - 1] <= k < #[trigger] m[j];
    // the interval holding a mandatory segment follows an anchor
    assert(st.anchors.contains(j as u32)) by {
        if !st.anchors.contains(j as u32) {
            assert(m[j] == m[j - 1] || (m[j] == m[j - 1] + 1
                && !l.extrusions.dom().contains(m[j - 1] as u32)));
            assert(k == m[j - 1]);
        }
    }
    lemma_tour_cover_from(m, 1, ids, k, j);
    assert(adj_count(1, ids, j) == 1);
    let tp = tour_pairs(m, 1, ids);
    assert forall|t: int| 0 <= t < tp.len() && covers_seg(#[trigger] tp[t], k)
        implies seg_extrudes(l, tp[t].0, tp[t].1) by {
        assert((tp[t].0 == k && tp[t].1 == k + 1) || (tp[t].0 == k + 1 && tp[t].1 == k));
    }
}

/// Emitting a list of motions appends exactly one command line per pair:
/// the line count of the output grows by the number of pairs. Together with
/// the expansion counts, the reconstructor emits `to - from` commands for a
/// forward adjacent tour pair, `from - to` backward, and one for a jump;
/// the small-layer path emits one command per node.
pub proof fn lemma_apply_pairs_commands(m: OptModel, l: LayerModel, ps: Seq<(int, int)>)
    ensures
        crate::text::count_nl(apply_pairs(m, l, ps).contents)
            == crate::text::count_nl(m.contents) + ps.len(),
    decreases ps.len(),
{
    if ps.len() > 0 {
        lemma_add_line_one_command(m, l, ps[0].0, ps[0].1);
        lemma_apply_pairs_commands(add_line_spec(m, l, ps[0].0, ps[0].1), l, ps.skip(1));
    }
}

} // verus!
