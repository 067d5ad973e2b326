//! The problem encoder: collapses a layer's travel graph into a solvable
//! instance, assigning sequential encoded node ids, merging uninterrupted
//! extrusion runs up to a length threshold, and writing the problem and
//! run-parameter texts.

use vstd::prelude::*;
use crate::math::{Point, spec_distance, distance_3d};
use crate::gcode::{GCodeLayer, LayerModel};
use crate::text::{lit, put_str, put_bytes, dec_digits, fixed_text, fmt_u64, fmt_fixed};

verus! {

broadcast use vstd::std_specs::hash::group_hash_axioms;

/// The encoder's running state: for every encoded node, the original index
/// it stands for (`merges`) and its coordinates (`coords`); the anchor ids
/// opening mandatory runs; and the scan state over the original nodes.
#[verifier::ext_equal]
pub ghost struct EncState {
    pub merges: Seq<u32>,
    pub coords: Seq<Point>,
    pub anchors: Seq<u32>,
    pub extruded: bool,
    pub cur_dist: int,
    pub last: Point,
}

impl EncState {
    /// Before any node is scanned.
    pub open spec fn init() -> EncState {
        EncState {
            merges: Seq::empty(),
            coords: Seq::empty(),
            anchors: Seq::empty(),
            extruded: false,
            cur_dist: 0,
            last: Point { x: 0, y: 0, z: 0 },
        }
    }
}

/// One encoder step: the original node `i` (one-based) either opens an
/// encoded node, splits a long run in two, or is absorbed into the current
/// merged run. A zero `threshold` never splits.
pub open spec fn enc_step(l: LayerModel, threshold: u64, i: int, st: EncState) -> EncState {
    let node = l.nodes[i - 1];
    let extrude = l.extrusions.dom().contains(i as u32);
    let st1 = if !extrude || !st.extruded {
        EncState {
            merges: st.merges.push(i as u32),
            coords: st.coords.push(node),
            anchors: if extrude {
                st.anchors.push((st.merges.len() + 1) as u32)
            } else {
                st.anchors
            },
            cur_dist: if extrude {
                st.cur_dist
            } else {
                0
            },
            ..st
        }
    } else {
        let nd = st.cur_dist + spec_distance(st.last, node);
        if threshold != 0 && nd > threshold {
            EncState {
                merges: st.merges.push(i as u32).push(i as u32),
                coords: st.coords.push(node).push(node),
                anchors: st.anchors.push((st.merges.len() + 2) as u32),
                cur_dist: 0,
                ..st
            }
        } else {
            EncState { cur_dist: nd, ..st }
        }
    };
    EncState { extruded: extrude, last: node, ..st1 }
}

/// The encoder state after scanning original nodes `i..` (one-based).
pub open spec fn encode_from(l: LayerModel, threshold: u64, i: int, st: EncState) -> EncState
    decreases l.nodes.len() + 1 - i when 1 <= i
{
    if i > l.nodes.len() {
        st
    } else {
        encode_from(l, threshold, i + 1, enc_step(l, threshold, i, st))
    }
}

/// The encoder's full result on a layer: the forward scan, then one closing
/// node when the layer ends mid-run.
pub open spec fn encode_spec(l: LayerModel, threshold: u64) -> EncState {
    let st = encode_from(l, threshold, 1, EncState::init());
    if st.extruded {
        EncState {
            merges: st.merges.push(l.nodes.len() as u32),
            coords: st.coords.push(l.nodes.last()),
            ..st
        }
    } else {
        st
    }
}

/// The per-layer map from encoded node id (one-based) to the original node
/// index it stands for.
pub struct MergeMap {
    pub merges: Vec<u32>,
}

impl View for MergeMap {
    type V = Seq<u32>;

    open spec fn view(&self) -> Seq<u32> {
        self.merges@
    }
}

impl MergeMap {
    /// How many encoded nodes there are.
    pub fn len(&self) -> (r: usize)
        ensures
            r == self@.len(),
    {
        self.merges.len()
    }

    /// The original node index encoded node `id` (one-based) stands for.
    pub fn get(&self, id: u32) -> (r: Option<u32>)
        ensures
            match r {
                Some(v) => 1 <= id <= self@.len() && v == self@[id - 1],
                None => !(1 <= id <= self@.len()),
            },
    {
        if id >= 1 && (id as usize) <= self.merges.len() {
            Some(self.merges[id as usize - 1])
        } else {
            None
        }
    }
}

/// What one layer encodes to.
pub struct EncodedProblem {
    /// Encoded id to original index.
    pub merges: MergeMap,
    /// Coordinates of each encoded node, by id.
    pub coords: Vec<Point>,
    /// Ids that open a mandatory run; each is fixed to its successor.
    pub anchors: Vec<u32>,
}

/// The distance between two points in range never exceeds this.
pub proof fn lemma_distance_bound(a: Point, b: Point)
    requires
        a.valid(),
        b.valid(),
    ensures
        spec_distance(a, b) <= 3_464_101_615,
{
    let sq = crate::math::dist_sq(a, b);
    let dx = a.x - b.x;
    let dy = a.y - b.y;
    let dz = a.z - b.z;
    assert(0 <= dx * dx + dy * dy + dz * dz <= 12_000_000_000_000_000_000) by (nonlinear_arith)
        requires
            -2_000_000_000 <= dx <= 2_000_000_000,
            -2_000_000_000 <= dy <= 2_000_000_000,
            -2_000_000_000 <= dz <= 2_000_000_000,
    ;
    assert(sq == dx * dx + dy * dy + dz * dz);
    crate::math::lemma_sqrt_floor_correct(sq as nat);
    let r = spec_distance(a, b);
    assert(crate::math::is_sqrt_floor(sq as nat, r));
    if r > 3_464_101_615 {
        assert(r * r >= 3_464_101_616 * 3_464_101_616) by (nonlinear_arith)
            requires
                r >= 3_464_101_616,
        ;
    }
}

/// Encodes one layer: a single forward pass over its nodes, exactly the
/// scan `encode_spec` describes. A `max_merge_length` of zero never splits
/// a run.
#[verifier::loop_isolation(false)]
#[verifier::rlimit(60)]
pub fn encode_layer(layer: &GCodeLayer, max_merge_length: u64) -> (r: EncodedProblem)
    requires
        layer@.wf(),
    ensures
        r.merges@ == encode_spec(layer@, max_merge_length).merges,
        r.coords@ == encode_spec(layer@, max_merge_length).coords,
        r.anchors@ == encode_spec(layer@, max_merge_length).anchors,
{
    let ghost l = layer@;
    let mut merges: Vec<u32> = Vec::new();
    let mut coords: Vec<Point> = Vec::new();
    let mut anchors: Vec<u32> = Vec::new();
    let mut extruded = false;
    let mut cur_dist: u128 = 0;
    let mut last = Point { x: 0, y: 0, z: 0 };
    let mut i: usize = 1;
    proof {
        assert(EncState::init() =~= EncState {
            merges: merges@,
            coords: coords@,
            anchors: anchors@,
            extruded: extruded,
            cur_dist: cur_dist as int,
            last: last,
        });
    }
    while i <= layer.nodes.len()
        invariant
            1 <= i <= l.nodes.len() + 1,
            merges@.len() == coords@.len(),
            merges@.len() <= 2 * (i - 1),
            cur_dist <= 3_464_101_616u128 * (i as u128),
            extruded ==> last.valid(),
            encode_from(l, max_merge_length, 1, EncState::init()) == encode_from(l,
                max_merge_length, i as int, EncState {
                merges: merges@,
                coords: coords@,
                anchors: anchors@,
                extruded: extruded,
                cur_dist: cur_dist as int,
                last: last,
            }),
        decreases l.nodes.len() + 1 - i,
    {
        let ghost st = EncState {
            merges: merges@,
            coords: coords@,
            anchors: anchors@,
            extruded: extruded,
            cur_dist: cur_dist as int,
            last: last,
        };
        let node = layer.nodes[i - 1];
        let extrude = layer.extrusions.contains_key(&(i as u32));
        if !extrude || !extruded {
            let id = merges.len() as u32 + 1;
            merges.push(i as u32);
            coords.push(node);
            if extrude {
                anchors.push(id);
            } else {
                cur_dist = 0;
            }
        } else {
            proof {
                lemma_distance_bound(last, node);
            }
            let nd = cur_dist + distance_3d(last, node) as u128;
            if max_merge_length != 0 && nd > max_merge_length as u128 {
                let id = merges.len() as u32 + 2;
                merges.push(i as u32);
                coords.push(node);
                merges.push(i as u32);
                coords.push(node);
                anchors.push(id);
                cur_dist = 0;
            } else {
                cur_dist = nd;
            }
        }
        extruded = extrude;
        last = node;
        proof {
            assert(EncState {
                merges: merges@,
                coords: coords@,
                anchors: anchors@,
                extruded: extruded,
                cur_dist: cur_dist as int,
                last: last,
            } =~= enc_step(l, max_merge_length, i as int, st));
        }
        i = i + 1;
    }
    if extruded {
        let n = layer.nodes.len();
        merges.push(n as u32);
        coords.push(layer.nodes[n - 1]);
    }
    proof {
        assert(merges@ =~= encode_spec(l, max_merge_length).merges);
        assert(coords@ =~= encode_spec(l, max_merge_length).coords);
        assert(anchors@ =~= encode_spec(l, max_merge_length).anchors);
    }
    EncodedProblem { merges: MergeMap { merges }, coords, anchors }
}

/// One problem-file line per encoded node: its id and coordinates, three
/// decimal places each.
pub open spec fn node_lines(coords: Seq<Point>, from: int) -> Seq<u8>
    decreases coords.len() - from when 0 <= from
{
    if from >= coords.len() {
        Seq::empty()
    } else {
        dec_digits((from + 1) as nat) + lit(" ") + fixed_text(coords[from].x as int, 3) + lit(" ")
            + fixed_text(coords[from].y as int, 3) + lit(" ") + fixed_text(coords[from].z as int, 3)
            + seq![10u8] + node_lines(coords, from + 1)
    }
}

/// One fixed-edge line per anchor: the anchor and its successor.
pub open spec fn edge_lines(anchors: Seq<u32>, from: int) -> Seq<u8>
    decreases anchors.len() - from when 0 <= from
{
    if from >= anchors.len() {
        Seq::empty()
    } else {
        dec_digits(anchors[from] as nat) + lit(" ") + dec_digits((anchors[from] + 1) as nat)
            + seq![10u8] + edge_lines(anchors, from + 1)
    }
}

/// The whole problem file: header, node coordinates, the fixed edges with
/// the closing edge back to node 1, and the terminator.
pub open spec fn tsp_text(layer: nat, coords: Seq<Point>, anchors: Seq<u32>) -> Seq<u8> {
    lit("NAME: Layer ") + dec_digits(layer)
        + lit("\nCOMMENT: Print optimization for current_layer ") + dec_digits(layer)
        + lit("\nTYPE: TSP\nDIMENSION: ") + dec_digits(coords.len())
        + lit("\nEDGE_WEIGHT_TYPE: EUC_3D\nNODE_COORD_SECTION\n")
        + node_lines(coords, 0)
        + lit("FIXED_EDGES_SECTION\n")
        + edge_lines(anchors, 0)
        + dec_digits(coords.len()) + lit(" 1\n-1\nEOF\n")
}

/// Writes the solver's problem file for one encoded layer.
#[verifier::loop_isolation(false)]
#[verifier::rlimit(60)]
pub fn write_tsp_file(layer: u64, problem: &EncodedProblem) -> (r: Vec<u8>)
    requires
        forall|j: int| 0 <= j < problem.coords@.len()
            ==> (#[trigger] problem.coords@[j]).valid(),
    ensures
        r@ == tsp_text(layer as nat, problem.coords@, problem.anchors@),
{
    proof {
        reveal_strlit("NAME: Layer ");
        reveal_strlit("\nCOMMENT: Print optimization for current_layer ");
        reveal_strlit("\nTYPE: TSP\nDIMENSION: ");
        reveal_strlit("\nEDGE_WEIGHT_TYPE: EUC_3D\nNODE_COORD_SECTION\n");
        reveal_strlit("FIXED_EDGES_SECTION\n");
        reveal_strlit(" 1\n-1\nEOF\n");
        reveal_strlit(" ");
    }
    let mut out: Vec<u8> = Vec::new();
    put_str(&mut out, "NAME: Layer ");
    let mut t = fmt_u64(layer);
    out.append(&mut t);
    put_str(&mut out, "\nCOMMENT: Print optimization for current_layer ");
    let mut t = fmt_u64(layer);
    out.append(&mut t);
    put_str(&mut out, "\nTYPE: TSP\nDIMENSION: ");
    let mut t = fmt_u64(problem.coords.len() as u64);
    out.append(&mut t);
    put_str(&mut out, "\nEDGE_WEIGHT_TYPE: EUC_3D\nNODE_COORD_SECTION\n");
    let ghost head = out@;
    let mut j: usize = 0;
    while j < problem.coords.len()
        invariant
            0 <= j <= problem.coords@.len(),
            out@ + node_lines(problem.coords@, j as int) == head + node_lines(problem.coords@, 0),
        decreases problem.coords@.len() - j,
    {
        let p = problem.coords[j];
        let mut t = fmt_u64(j as u64 + 1);
        out.append(&mut t);
        put_str(&mut out, " ");
        let mut t = fmt_fixed(p.x, 3);
        out.append(&mut t);
        put_str(&mut out, " ");
        let mut t = fmt_fixed(p.y, 3);
        out.append(&mut t);
        put_str(&mut out, " ");
        let mut t = fmt_fixed(p.z, 3);
        out.append(&mut t);
        out.push(10);
        j = j + 1;
        proof {
            assert(out@ + node_lines(problem.coords@, j as int)
                =~= head + node_lines(problem.coords@, 0));
        }
    }
    proof {
        assert(node_lines(problem.coords@, j as int) =~= Seq::<u8>::empty());
        assert(out@ =~= head + node_lines(problem.coords@, 0));
    }
    put_str(&mut out, "FIXED_EDGES_SECTION\n");
    let ghost head2 = out@;
    let mut j: usize = 0;
    while j < problem.anchors.len()
        invariant
            0 <= j <= problem.anchors@.len(),
            out@ + edge_lines(problem.anchors@, j as int) == head2
                + edge_lines(problem.anchors@, 0),
        decreases problem.anchors@.len() - j,
    {
        let a = problem.anchors[j];
        let mut t = fmt_u64(a as u64);
        out.append(&mut t);
        put_str(&mut out, " ");
        let mut t = fmt_u64(a as u64 + 1);
        out.append(&mut t);
        out.push(10);
        j = j + 1;
        proof {
            assert(out@ + edge_lines(problem.anchors@, j as int)
                =~= head2 + edge_lines(problem.anchors@, 0));
        }
    }
    proof {
        assert(edge_lines(problem.anchors@, j as int) =~= Seq::<u8>::empty());
        assert(out@ =~= head2 + edge_lines(problem.anchors@, 0));
    }
    let mut t = fmt_u64(problem.coords.len() as u64);
    out.append(&mut t);
    put_str(&mut out, " 1\n-1\nEOF\n");
    proof {
        assert(out@ =~= tsp_text(layer as nat, problem.coords@, problem.anchors@));
    }
    out
}

/// The solver's run-parameters file.
pub open spec fn parameters_text(tsp_path: Seq<u8>, result_path: Seq<u8>, precision: u32,
    num_runs: u32) -> Seq<u8> {
    lit("PROBLEM_FILE = ") + tsp_path + lit("\nTOUR_FILE = ") + result_path
        + lit("\nPRECISION = ") + dec_digits(precision as nat) + lit("\nRUNS = ")
        + dec_digits(num_runs as nat) + lit("\nCANDIDATE_SET_TYPE = POPMUSIC\n")
}

/// Writes the solver's run-parameters file.
pub fn write_parameters_file(tsp_path: &[u8], result_path: &[u8], precision: u32, num_runs: u32)
    -> (r: Vec<u8>)
    ensures
        r@ == parameters_text(tsp_path@, result_path@, precision, num_runs),
{
    proof {
        reveal_strlit("PROBLEM_FILE = ");
        reveal_strlit("\nTOUR_FILE = ");
        reveal_strlit("\nPRECISION = ");
        reveal_strlit("\nRUNS = ");
        reveal_strlit("\nCANDIDATE_SET_TYPE = POPMUSIC\n");
    }
    let mut out: Vec<u8> = Vec::new();
    put_str(&mut out, "PROBLEM_FILE = ");
    put_bytes(&mut out, tsp_path);
    put_str(&mut out, "\nTOUR_FILE = ");
    put_bytes(&mut out, result_path);
    put_str(&mut out, "\nPRECISION = ");
    let mut t = fmt_u64(precision as u64);
    out.append(&mut t);
    put_str(&mut out, "\nRUNS = ");
    let mut t = fmt_u64(num_runs as u64);
    out.append(&mut t);
    put_str(&mut out, "\nCANDIDATE_SET_TYPE = POPMUSIC\n");
    proof {
        assert(out@ =~= parameters_text(tsp_path@, result_path@, precision, num_runs));
    }
    out
}


/// Structural facts the scan keeps: merge entries are real one-based node
/// indices in scan order, encoded coordinates are in range, anchors ascend
/// and point at encoded nodes.
pub open spec fn enc_ok(l: LayerModel, i: int, st: EncState) -> bool {
    &&& st.merges.len() == st.coords.len()
    &&& st.merges.len() <= 2 * (i - 1)
    &&& forall|j: int| 0 <= j < st.merges.len() ==> 1 <= #[trigger] st.merges[j] < i
    &&& forall|j1: int, j2: int| 0 <= j1 <= j2 < st.merges.len()
        ==> st.merges[j1] <= st.merges[j2]
    &&& forall|j: int| 0 <= j < st.coords.len() ==> (#[trigger] st.coords[j]).valid()
    &&& forall|j: int| 0 <= j < st.anchors.len()
        ==> 1 <= #[trigger] st.anchors[j] <= st.merges.len()
    &&& forall|j1: int, j2: int| 0 <= j1 < j2 < st.anchors.len()
        ==> st.anchors[j1] < st.anchors[j2]
}

proof fn lemma_encode_from_ok(l: LayerModel, thr: u64, i: int, st: EncState)
    requires
        l.wf(),
        1 <= i <= l.nodes.len() + 1,
        enc_ok(l, i, st),
    ensures
        enc_ok(l, l.nodes.len() as int + 1, encode_from(l, thr, i, st)),
        encode_from(l, thr, i, st).merges.len() <= st.merges.len() + 2 * (l.nodes.len() + 1 - i),
    decreases l.nodes.len() + 1 - i,
{
    if i <= l.nodes.len() {
        let st2 = enc_step(l, thr, i, st);
        let node = l.nodes[i - 1];
        let extrude = l.extrusions.dom().contains(i as u32);
        assert(node.valid());
        if !extrude || !st.extruded {
            assert(st2.merges == st.merges.push(i as u32));
            assert(st2.coords == st.coords.push(node));
            assert forall|j1: int, j2: int| 0 <= j1 <= j2 < st2.merges.len()
                implies st2.merges[j1] <= st2.merges[j2] by {
                if j2 < st.merges.len() {
                } else {
                    assert(st2.merges[j2] == i as u32);
                }
            }
            if extrude {
                assert(st2.anchors == st.anchors.push((st.merges.len() + 1) as u32));
                assert forall|j1: int, j2: int| 0 <= j1 < j2 < st2.anchors.len()
                    implies st2.anchors[j1] < st2.anchors[j2] by {
                    if j2 < st.anchors.len() {
                    } else {
                        assert(st2.anchors[j1] <= st.merges.len());
                    }
                }
            }
        } else {
            let nd = st.cur_dist + spec_distance(st.last, node);
            if thr != 0 && nd > thr {
                assert(st2.merges == st.merges.push(i as u32).push(i as u32));
                assert(st2.coords == st.coords.push(node).push(node));
                assert forall|j1: int, j2: int| 0 <= j1 <= j2 < st2.merges.len()
                    implies st2.merges[j1] <= st2.merges[j2] by {
                    if j2 < st.merges.len() {
                    } else {
                        assert(st2.merges[j2] == i as u32);
                    }
                }
                assert(st2.anchors == st.anchors.push((st.merges.len() + 2) as u32));
                assert forall|j1: int, j2: int| 0 <= j1 < j2 < st2.anchors.len()
                    implies st2.anchors[j1] < st2.anchors[j2] by {
                    if j2 < st.anchors.len() {
                    } else {
                        assert(st2.anchors[j1] <= st.merges.len());
                    }
                }
            } else {
                assert(st2.merges == st.merges);
            }
        }
        assert(enc_ok(l, i + 1, st2));
        lemma_encode_from_ok(l, thr, i + 1, st2);
    }
}

/// The encoder's output is structurally sound: every encoded node stands for
/// a real original node, in scan order; anchors strictly ascend.
pub proof fn lemma_encode_ok(l: LayerModel, thr: u64)
    requires
        l.wf(),
    ensures
        enc_ok(l, l.nodes.len() as int + 2, encode_spec(l, thr)),
        encode_spec(l, thr).merges.len() <= 2 * l.nodes.len() + 1,
        encode_spec(l, thr).extruded ==> l.nodes.len() >= 1,
{
    lemma_encode_from_ok(l, thr, 1, EncState::init());
    let st = encode_from(l, thr, 1, EncState::init());
    if st.extruded {
        assert(l.nodes.len() >= 1) by {
            if l.nodes.len() == 0 {
                assert(encode_from(l, thr, 1, EncState::init()) == EncState::init());
            }
        }
        assert(enc_ok(l, l.nodes.len() as int + 2, encode_spec(l, thr)));
    }
}

/// The fixed-edge list: one edge per anchor to its successor id, then the
/// closing edge from the last encoded node back to node 1.
pub open spec fn fixed_edges(anchors: Seq<u32>, count: nat) -> Seq<(u32, u32)> {
    anchors.map_values(|a: u32| (a, (a + 1) as u32)).push(((count as u32), 1u32))
}

/// Tour closure: for every encoded layer the fixed-edge section ends in
/// exactly the closing edge back to node 1, and each anchor stands in
/// exactly one (k, k + 1) pair.
pub proof fn lemma_tour_closure(l: LayerModel, thr: u64)
    requires
        l.wf(),
    ensures
        ({
            let st = encode_spec(l, thr);
            let edges = fixed_edges(st.anchors, st.merges.len() as nat);
            &&& edges.len() == st.anchors.len() + 1
            &&& edges.last() == (((st.merges.len() as nat) as u32), 1u32)
            &&& forall|j: int| 0 <= j < st.anchors.len()
                ==> edges[j] == (st.anchors[j], (st.anchors[j] + 1) as u32)
            &&& forall|j1: int, j2: int| 0 <= j1 < j2 < st.anchors.len()
                ==> st.anchors[j1] != st.anchors[j2]
        }),
{
    lemma_encode_ok(l, thr);
}

/// A layer with no extruding segments encodes one node per original node,
/// whatever the threshold.
pub proof fn lemma_encode_all_travel(l: LayerModel, thr: u64)
    requires
        l.wf(),
        forall|k: u32| !l.extrusions.dom().contains(k),
    ensures
        encode_spec(l, thr).merges =~= Seq::new(l.nodes.len(), |j: int| (j + 1) as u32),
        encode_spec(l, thr).anchors =~= Seq::<u32>::empty(),
{
    lemma_all_travel_from(l, thr, 1, EncState::init());
}

proof fn lemma_all_travel_from(l: LayerModel, thr: u64, i: int, st: EncState)
    requires
        l.wf(),
        1 <= i <= l.nodes.len() + 1,
        forall|k: u32| !l.extrusions.dom().contains(k),
        !st.extruded,
        st.merges =~= Seq::new((i - 1) as nat, |j: int| (j + 1) as u32),
        st.anchors =~= Seq::<u32>::empty(),
    ensures
        encode_from(l, thr, i, st).merges =~= Seq::new(l.nodes.len(), |j: int| (j + 1) as u32),
        encode_from(l, thr, i, st).anchors =~= Seq::<u32>::empty(),
        !encode_from(l, thr, i, st).extruded,
    decreases l.nodes.len() + 1 - i,
{
    if i <= l.nodes.len() {
        let st2 = enc_step(l, thr, i, st);
        assert(st2.merges =~= Seq::new(i as nat, |j: int| (j + 1) as u32));
        lemma_all_travel_from(l, thr, i + 1, st2);
    }
}

/// With an unbounded threshold, one uninterrupted mandatory run over the
/// whole layer encodes to exactly two nodes, its start and its end, with
/// the single anchor at the start — however many nodes the run visits.
pub proof fn lemma_encode_single_run(l: LayerModel)
    requires
        l.wf(),
        l.nodes.len() >= 2,
        forall|k: u32| l.extrusions.dom().contains(k) <==> 1 <= k < l.nodes.len(),
    ensures
        encode_spec(l, 0).merges =~= seq![1u32, l.nodes.len() as u32],
        encode_spec(l, 0).anchors =~= seq![1u32],
{
    let st1 = enc_step(l, 0, 1, EncState::init());
    assert(l.extrusions.dom().contains(1u32));
    assert(st1.merges =~= seq![1u32]);
    assert(st1.anchors =~= seq![1u32]);
    lemma_single_run_from(l, 2, st1);
}

proof fn lemma_single_run_from(l: LayerModel, i: int, st: EncState)
    requires
        l.wf(),
        2 <= i <= l.nodes.len(),
        forall|k: u32| l.extrusions.dom().contains(k) <==> 1 <= k < l.nodes.len(),
        st.merges =~= seq![1u32],
        st.anchors =~= seq![1u32],
        st.extruded,
    ensures
        encode_from(l, 0, i, st).merges =~= seq![1u32, l.nodes.len() as u32],
        encode_from(l, 0, i, st).anchors =~= seq![1u32],
        !encode_from(l, 0, i, st).extruded,
    decreases l.nodes.len() - i,
{
    let st2 = enc_step(l, 0, i, st);
    if i < l.nodes.len() {
        assert(l.extrusions.dom().contains(i as u32));
        assert(st2.merges =~= seq![1u32]);
        assert(st2.extruded);
        lemma_single_run_from(l, i + 1, st2);
    } else {
        assert(!l.extrusions.dom().contains(i as u32));
        assert(st2.merges =~= seq![1u32, l.nodes.len() as u32]);
        assert(st2.anchors =~= seq![1u32]);
        assert(!st2.extruded);
        assert(encode_from(l, 0, i + 1, st2) == st2);
    }
}

/// The closed-interval shape of a partial encoding: consecutive encoded
/// nodes delimit original-index intervals; an interval after an anchor
/// holds mandatory segments only, any other is empty or one non-mandatory
/// segment.
pub open spec fn runs_shape(l: LayerModel, st: EncState) -> bool {
    forall|j: int| #![trigger st.merges[j]] 1 <= j < st.merges.len()
        ==> if st.anchors.contains(j as u32) {
        forall|s: int| st.merges[j - 1] <= s < st.merges[j]
            ==> l.extrusions.dom().contains(#[trigger] (s as u32))
    } else {
        st.merges[j] == st.merges[j - 1] || (st.merges[j] == st.merges[j - 1] + 1
            && !l.extrusions.dom().contains(st.merges[j - 1] as u32))
    }
}

/// What the scan keeps, beyond `enc_ok`, to know the run structure.
pub open spec fn runs_inv(l: LayerModel, i: int, st: EncState) -> bool {
    &&& st.merges.len() >= 1 ==> st.merges[0] == 1
    &&& i >= 2 ==> st.merges.len() >= 1
    &&& i == 1 ==> st.merges.len() == 0 && !st.extruded && st.anchors.len() == 0
    &&& i >= 2 ==> st.extruded == l.extrusions.dom().contains((i - 1) as u32)
    &&& !st.extruded && st.merges.len() >= 1 ==> st.merges.last() == i - 1
    &&& !st.extruded && st.anchors.len() >= 1 ==> st.anchors.last() < st.merges.len()
    &&& st.extruded ==> st.merges.len() >= 1 && st.anchors.len() >= 1
        && st.anchors.last() == st.merges.len() && st.merges.last() <= i - 1
        && (forall|s: int| st.merges.last() <= s <= i - 1
            ==> l.extrusions.dom().contains(#[trigger] (s as u32)))
    &&& runs_shape(l, st)
}

/// Membership in a list after a push.
proof fn lemma_push_contains(a: Seq<u32>, v: u32, x: u32)
    ensures
        a.push(v).contains(x) <==> (a.contains(x) || x == v),
{
    if a.contains(x) {
        let j = choose|j: int| 0 <= j < a.len() && a[j] == x;
        assert(a.push(v)[j] == x);
    }
    assert(a.push(v)[a.len() as int] == v);
    if a.push(v).contains(x) {
        let j = choose|j: int| 0 <= j < a.push(v).len() && a.push(v)[j] == x;
        if j < a.len() {
            assert(a[j] == x);
        }
    }
}

/// In a strictly ascending list nothing past the last value is a member.
proof fn lemma_ascending_bounds(a: Seq<u32>, v: u32)
    requires
        forall|j1: int, j2: int| 0 <= j1 < j2 < a.len() ==> a[j1] < a[j2],
        a.len() >= 1 ==> a.last() < v,
    ensures
        !a.contains(v),
{
    if a.contains(v) {
        let j = choose|j: int| 0 <= j < a.len() && a[j] == v;
        if j < a.len() - 1 {
            assert(a[j] < a[a.len() - 1]);
        }
    }
}

/// One encoder step preserves the structural facts.
proof fn lemma_enc_step_ok(l: LayerModel, thr: u64, i: int, st: EncState)
    requires
        l.wf(),
        1 <= i <= l.nodes.len(),
        enc_ok(l, i, st),
    ensures
        enc_ok(l, i + 1, enc_step(l, thr, i, st)),
{
    let st2 = enc_step(l, thr, i, st);
    let extrude = l.extrusions.dom().contains(i as u32);
    if !extrude || !st.extruded {
        assert forall|j1: int, j2: int| 0 <= j1 <= j2 < st2.merges.len()
            implies st2.merges[j1] <= st2.merges[j2] by {
            if j2 >= st.merges.len() {
                assert(st2.merges[j2] == i as u32);
            }
        }
        if extrude {
            assert forall|j1: int, j2: int| 0 <= j1 < j2 < st2.anchors.len()
                implies st2.anchors[j1] < st2.anchors[j2] by {
                if j2 >= st.anchors.len() {
                    assert(st2.anchors[j1] <= st.merges.len());
                }
            }
        }
    } else {
        let nd = st.cur_dist + crate::math::spec_distance(st.last, l.nodes[i - 1]);
        if thr != 0 && nd > thr {
            assert forall|j1: int, j2: int| 0 <= j1 <= j2 < st2.merges.len()
                implies st2.merges[j1] <= st2.merges[j2] by {
                if j2 >= st.merges.len() {
                    assert(st2.merges[j2] == i as u32);
                }
            }
            assert forall|j1: int, j2: int| 0 <= j1 < j2 < st2.anchors.len()
                implies st2.anchors[j1] < st2.anchors[j2] by {
                if j2 >= st.anchors.len() {
                    assert(st2.anchors[j1] <= st.merges.len());
                }
            }
        }
    }
}

proof fn lemma_encode_runs_from(l: LayerModel, thr: u64, i: int, st: EncState)
    requires
        l.wf(),
        1 <= i <= l.nodes.len() + 1,
        enc_ok(l, i, st),
        runs_inv(l, i, st),
    ensures
        enc_ok(l, l.nodes.len() as int + 1, encode_from(l, thr, i, st)),
        runs_inv(l, l.nodes.len() as int + 1, encode_from(l, thr, i, st)),
    decreases l.nodes.len() + 1 - i,
{
    if i <= l.nodes.len() {
        let st2 = enc_step(l, thr, i, st);
        lemma_enc_step_ok(l, thr, i, st);
        lemma_runs_step(l, thr, i, st);
        lemma_encode_runs_from(l, thr, i + 1, st2);
    }
}

/// One encoder step keeps the run structure.
proof fn lemma_runs_step(l: LayerModel, thr: u64, i: int, st: EncState)
    requires
        l.wf(),
        1 <= i <= l.nodes.len(),
        enc_ok(l, i, st),
        runs_inv(l, i, st),
    ensures
        runs_inv(l, i + 1, enc_step(l, thr, i, st)),
{
    let st2 = enc_step(l, thr, i, st);
    let extrude = l.extrusions.dom().contains(i as u32);
    lemma_enc_step_ok(l, thr, i, st);
    if !extrude || !st.extruded {
        lemma_runs_step_emit(l, thr, i, st);
    } else {
        let nd = st.cur_dist + crate::math::spec_distance(st.last, l.nodes[i - 1]);
        if thr != 0 && nd > thr {
            lemma_runs_step_split(l, thr, i, st);
        } else {
            assert(st2.merges == st.merges);
            assert(st2.anchors == st.anchors);
            assert(runs_inv(l, i + 1, st2));
        }
    }
}

/// The emitting step: the interval before the new node closes.
#[verifier::rlimit(100)]
#[verifier::spinoff_prover]
proof fn lemma_runs_step_emit(l: LayerModel, thr: u64, i: int, st: EncState)
    requires
        l.wf(),
        1 <= i <= l.nodes.len(),
        enc_ok(l, i, st),
        runs_inv(l, i, st),
        !l.extrusions.dom().contains(i as u32) || !st.extruded,
    ensures
        runs_inv(l, i + 1, enc_step(l, thr, i, st)),
{
    let st2 = enc_step(l, thr, i, st);
    let extrude = l.extrusions.dom().contains(i as u32);
    lemma_enc_step_ok(l, thr, i, st);
    assert(st2.merges == st.merges.push(i as u32));
    assert(st2.anchors == if extrude {
        st.anchors.push((st.merges.len() + 1) as u32)
    } else {
        st.anchors
    });
    let cnt = st.merges.len() as int;
    if cnt >= 1 {
        // the closing interval is indexed by the old last id
        if st.extruded {
            assert(st.anchors.contains(cnt as u32)) by {
                assert(st.anchors.last() == cnt as u32);
            }
        } else {
            assert(!st.anchors.contains(cnt as u32)) by {
                lemma_ascending_bounds(st.anchors, cnt as u32);
            }
        }
        if extrude {
            assert(st2.anchors.contains((cnt + 1) as u32)) by {
                assert(st2.anchors.last() == (cnt + 1) as u32);
            }
        }
        assert forall|j: int| #![trigger st2.merges[j]] 1 <= j < st2.merges.len()
            implies
            if st2.anchors.contains(j as u32) {
                forall|s: int| st2.merges[j - 1] <= s < st2.merges[j]
                    ==> l.extrusions.dom().contains(#[trigger] (s as u32))
            } else {
                st2.merges[j] == st2.merges[j - 1] || (st2.merges[j]
                    == st2.merges[j - 1] + 1 && !l.extrusions.dom().contains(
                    st2.merges[j - 1] as u32))
            } by {
            if j < cnt {
                assert(st.anchors.contains(j as u32) == st2.anchors.contains(j as u32))
                by {
                    if extrude {
                        lemma_push_contains(st.anchors, (cnt + 1) as u32, j as u32);
                    }
                }
                assert(st2.merges[j - 1] == st.merges[j - 1]);
                assert(st2.merges[j] == st.merges[j]);
            } else {
                // j == cnt: the interval that closes now
                assert(st2.merges[j] == i as u32);
                if st.extruded {
                    assert(st2.anchors.contains(j as u32)) by {
                        assert(st.anchors.contains(j as u32));
                        if extrude {
                            lemma_push_contains(st.anchors, (cnt + 1) as u32, j as u32);
                        }
                    }
                    assert(forall|s: int| st.merges.last() <= s <= i - 1
                        ==> l.extrusions.dom().contains(#[trigger] (s as u32)));
                } else {
                    assert(!st2.anchors.contains(j as u32)) by {
                        lemma_ascending_bounds(st.anchors, cnt as u32);
                        if extrude {
                            lemma_push_contains(st.anchors, (cnt + 1) as u32, cnt as u32);
                        }
                    }
                    assert(st.merges.last() == i - 1);
                    assert(st2.merges[j - 1] == i - 1);
                }
            }
        }
    }
    assert(runs_inv(l, i + 1, st2));
}

/// The splitting step: two nodes close the run and reopen it.
#[verifier::rlimit(100)]
#[verifier::spinoff_prover]
proof fn lemma_runs_step_split(l: LayerModel, thr: u64, i: int, st: EncState)
    requires
        l.wf(),
        1 <= i <= l.nodes.len(),
        enc_ok(l, i, st),
        runs_inv(l, i, st),
        l.extrusions.dom().contains(i as u32),
        st.extruded,
        thr != 0,
        st.cur_dist + crate::math::spec_distance(st.last, l.nodes[i - 1]) > thr,
    ensures
        runs_inv(l, i + 1, enc_step(l, thr, i, st)),
{
    let st2 = enc_step(l, thr, i, st);
    lemma_enc_step_ok(l, thr, i, st);
    assert(st2.merges == st.merges.push(i as u32).push(i as u32));
    assert(st2.anchors == st.anchors.push((st.merges.len() + 2) as u32));
    let cnt = st.merges.len() as int;
    assert(st.anchors.contains(cnt as u32)) by {
        assert(st.anchors.last() == cnt as u32);
    }
    assert(st2.anchors.contains((cnt + 2) as u32)) by {
        assert(st2.anchors.last() == (cnt + 2) as u32);
    }
    assert(!st2.anchors.contains((cnt + 1) as u32)) by {
        lemma_ascending_bounds(st.anchors, (cnt + 1) as u32);
        lemma_push_contains(st.anchors, (cnt + 2) as u32, (cnt + 1) as u32);
    }
    assert forall|j: int| #![trigger st2.merges[j]] 1 <= j < st2.merges.len()
        implies
        if st2.anchors.contains(j as u32) {
            forall|s: int| st2.merges[j - 1] <= s < st2.merges[j]
                ==> l.extrusions.dom().contains(#[trigger] (s as u32))
        } else {
            st2.merges[j] == st2.merges[j - 1] || (st2.merges[j]
                == st2.merges[j - 1] + 1 && !l.extrusions.dom().contains(
                st2.merges[j - 1] as u32))
        } by {
        if j < cnt {
            assert(st.anchors.contains(j as u32) == st2.anchors.contains(j as u32))
            by {
                lemma_push_contains(st.anchors, (cnt + 2) as u32, j as u32);
            }
            assert(st2.merges[j - 1] == st.merges[j - 1]);
            assert(st2.merges[j] == st.merges[j]);
        } else if j == cnt {
            assert(st2.anchors.contains(j as u32)) by {
                lemma_push_contains(st.anchors, (cnt + 2) as u32, j as u32);
            }
            assert(st2.merges[j] == i as u32);
            assert(forall|s: int| st.merges.last() <= s <= i - 1
                ==> l.extrusions.dom().contains(#[trigger] (s as u32)));
        } else {
            // j == cnt + 1: the empty interval between the twins
            assert(st2.merges[j - 1] == i as u32);
            assert(st2.merges[j] == i as u32);
        }
    }
    assert(runs_inv(l, i + 1, st2));
}

/// The run structure of a whole encoded layer: encoded nodes delimit a
/// partition of the original indices from node 1 to the last node; each
/// interval that follows an anchor holds mandatory segments only, and every
/// other interval is empty or a single non-mandatory segment. With the
/// anchors' fixed edges walked once each, this is what keeps every mandatory
/// segment in the reconstructed output exactly once.
pub proof fn lemma_encode_runs(l: LayerModel, thr: u64)
    requires
        l.wf(),
    ensures
        ({
            let st = encode_spec(l, thr);
            &&& l.nodes.len() >= 1 ==> st.merges.len() >= 1
            &&& st.merges.len() >= 1 ==> st.merges[0] == 1
            &&& l.nodes.len() >= 1 ==> st.merges.last() == l.nodes.len()
            &&& runs_shape(l, st)
        }),
{
    lemma_encode_runs_from(l, thr, 1, EncState::init());
    let st0 = encode_from(l, thr, 1, EncState::init());
    let n = l.nodes.len() as int;
    if st0.extruded {
        // the scan cannot end inside a run: a key names a real segment
        assert(l.extrusions.dom().contains(n as u32));
        assert(false);
    }
    assert(encode_spec(l, thr) == st0);
}

} // verus!
