//! The program model: modes, layers, statistics, and the line parser that
//! builds them from a motion-command stream.

use vstd::prelude::*;
use std::collections::HashMap;
use crate::math::{Point, MAX_COORD, spec_distance, distance_3d, distance_to_origin};
use crate::text::{
    tokens, tokenize, find_byte, find_from, lemma_find_from, fixed_valid, fixed_value,
    fixed_mag, parse_fixed, lines, lines_from, strip_cr,
};

verus! {

broadcast use vstd::std_specs::hash::group_hash_axioms;

/// Interpretation of coordinates or extrusion amounts.
#[derive(Clone, Copy, PartialEq, Eq, Structural, Debug)]
pub enum CoordinatesMode {
    Absolute,
    Relative,
    NotSet,
}

/// Unit of length the program is written in.
#[derive(Clone, Copy, PartialEq, Eq, Structural, Debug)]
pub enum UnitsMode {
    Millimeters,
    Inches,
    NotSet,
}

/// The name of a unit of length.
pub fn get_units_text(mode: &UnitsMode) -> (r: &'static str)
    ensures
        mode is Millimeters ==> r@ == "mm"@,
        mode is Inches ==> r@ == "in"@,
        mode is NotSet ==> r@ == "units"@,
{
    match mode {
        UnitsMode::Millimeters => "mm",
        UnitsMode::Inches => "in",
        UnitsMode::NotSet => "units",
    }
}

/// A fatal fault in the input program: a malformed or out-of-range number.
#[derive(Clone, Copy, PartialEq, Eq, Structural, Debug)]
pub struct ParseError {
    /// One-based line of the offending command.
    pub line: usize,
}

/// What a non-fatal warning reports.
#[derive(Clone, Copy, PartialEq, Eq, Structural, Debug)]
pub enum WarningKind {
    /// A mode-setting command recurred after the mode was established.
    ModeConflict,
    /// The first word of a line matched no known command.
    UnknownCommand,
}

/// A non-fatal observation made while reading the program.
#[derive(Clone, Copy, PartialEq, Eq, Structural, Debug)]
pub struct Warning {
    /// One-based line the warning is about.
    pub line: usize,
    pub kind: WarningKind,
}

/// Running length totals, in thousandths of the current unit.
pub struct GCodeStats {
    pub extrusion_distance: u64,
    pub travel_distance: u64,
    pub units_mode: UnitsMode,
}

impl GCodeStats {
    /// Adds to the extruded length, stopping at the top of the range.
    pub fn increment_extrusion(&mut self, distance: u64)
        ensures
            final(self).extrusion_distance == if old(self).extrusion_distance + distance
                <= u64::MAX { old(self).extrusion_distance + distance } else { u64::MAX as int },
            final(self).travel_distance == old(self).travel_distance,
            final(self).units_mode == old(self).units_mode,
    {
        self.extrusion_distance = self.extrusion_distance.saturating_add(distance);
    }

    /// Adds to the travelled length, stopping at the top of the range.
    pub fn increment_travel(&mut self, distance: u64)
        ensures
            final(self).travel_distance == if old(self).travel_distance + distance
                <= u64::MAX { old(self).travel_distance + distance } else { u64::MAX as int },
            final(self).extrusion_distance == old(self).extrusion_distance,
            final(self).units_mode == old(self).units_mode,
    {
        self.travel_distance = self.travel_distance.saturating_add(distance);
    }
}

/// One layer's travel graph: the visited points in program order, which
/// segments extrude, the feed rates, and trailing commands.
///
/// A key `k` in `extrusions` marks the segment from node `k` to node `k + 1`
/// (one-based) as mandatory, holding the amount extruded along it in
/// hundred-thousandths. A key `k` in `feedrates` gives the feed rate for the
/// segment leaving node `k`, in thousandths; key 0 holds the default travel
/// feed rate.
pub struct GCodeLayer {
    pub nodes: Vec<Point>,
    pub extrusions: HashMap<u32, i64>,
    pub feedrates: HashMap<u32, i64>,
    pub end_commands: Vec<u8>,
}

/// The ghost shape of a layer.
#[verifier::ext_equal]
pub ghost struct LayerModel {
    pub nodes: Seq<Point>,
    pub extrusions: Map<u32, i64>,
    pub feedrates: Map<u32, i64>,
    pub end_commands: Seq<u8>,
}

impl View for GCodeLayer {
    type V = LayerModel;

    open spec fn view(&self) -> LayerModel {
        LayerModel {
            nodes: self.nodes@,
            extrusions: self.extrusions@,
            feedrates: self.feedrates@,
            end_commands: self.end_commands@,
        }
    }
}

impl LayerModel {
    /// An empty layer.
    pub open spec fn empty() -> LayerModel {
        LayerModel {
            nodes: Seq::empty(),
            extrusions: Map::empty(),
            feedrates: Map::empty(),
            end_commands: Seq::empty(),
        }
    }

    /// Keys point at real segments and every node is in range. The node
    /// count is capped so that encoded node ids (up to two per node) stay
    /// inside `u32`.
    pub open spec fn wf(self) -> bool {
        &&& self.nodes.len() <= 2_000_000_000
        &&& forall|k: u32| self.extrusions.dom().contains(k)
            ==> 0 <= k && k + 1 <= self.nodes.len()
        &&& forall|k: u32| self.feedrates.dom().contains(k) ==> 0 <= k <= self.nodes.len()
        &&& forall|i: int| 0 <= i < self.nodes.len() ==> (#[trigger] self.nodes[i]).valid()
        &&& forall|k: u32| self.extrusions.dom().contains(k)
            ==> #[trigger] self.extrusions[k] > i64::MIN
        &&& forall|k: u32| self.feedrates.dom().contains(k)
            ==> #[trigger] self.feedrates[k] > i64::MIN
    }
}

impl GCodeLayer {
    /// An empty layer.
    pub fn new() -> (r: GCodeLayer)
        ensures
            r@ == LayerModel::empty(),
    {
        let r = GCodeLayer {
            nodes: Vec::new(),
            extrusions: HashMap::new(),
            feedrates: HashMap::new(),
            end_commands: Vec::new(),
        };
        proof {
            assert(r@.nodes =~= LayerModel::empty().nodes);
            assert(r@.extrusions =~= LayerModel::empty().extrusions);
            assert(r@.feedrates =~= LayerModel::empty().feedrates);
            assert(r@.end_commands =~= LayerModel::empty().end_commands);
        }
        r
    }
}

/// A motion program: modes, bracketing commands, layers, and totals.
pub struct GCode {
    pub file_path: String,
    pub contents: Vec<u8>,

    pub position_mode: CoordinatesMode,
    pub extruder_mode: CoordinatesMode,

    pub start_commands: Vec<u8>,
    pub end_commands: Vec<u8>,

    pub layers: Vec<GCodeLayer>,

    pub travel_count: u64,
    pub extrude_count: u64,
    pub stats: GCodeStats,
}

impl GCode {
    /// Every layer of `self` is well formed.
    pub open spec fn wf(self) -> bool {
        forall|i: int| 0 <= i < self.layers@.len() ==> (#[trigger] self.layers@[i])@.wf()
    }

    /// Creates a new program without content.
    pub fn new(file_path: &str, position_mode: CoordinatesMode, extruder_mode: CoordinatesMode)
        -> (r: GCode)
        ensures
            r.file_path@ == file_path@,
            r.contents@ == Seq::<u8>::empty(),
            r.position_mode == position_mode,
            r.extruder_mode == extruder_mode,
            r.start_commands@ == Seq::<u8>::empty(),
            r.end_commands@ == Seq::<u8>::empty(),
            r.layers@ == Seq::<GCodeLayer>::empty(),
            r.travel_count == 0,
            r.extrude_count == 0,
            r.stats.extrusion_distance == 0,
            r.stats.travel_distance == 0,
            r.stats.units_mode == UnitsMode::NotSet,
            r.wf(),
    {
        GCode {
            file_path: file_path.to_owned(),
            contents: Vec::new(),

            position_mode,
            extruder_mode,

            start_commands: Vec::new(),
            end_commands: Vec::new(),

            layers: Vec::new(),

            travel_count: 0,
            extrude_count: 0,
            stats: GCodeStats {
                extrusion_distance: 0,
                travel_distance: 0,
                units_mode: UnitsMode::NotSet,
            },
        }
    }
}

/// The position the argument words leave a motion command at: any `X`, `Y`
/// or `Z` word overwrites that axis of `cur`; other words are skipped. `None`
/// when a present coordinate is not a plain decimal in range.
pub open spec fn update_pos(toks: Seq<Seq<u8>>, cur: Point) -> Option<Point>
    decreases toks.len(),
{
    if toks.len() == 0 {
        Some(cur)
    } else {
        let t = toks[0];
        let rest = toks.skip(1);
        if t.len() > 0 && (t[0] == 88 || t[0] == 89 || t[0] == 90) {
            let body = t.skip(1);
            if fixed_valid(body) && -MAX_COORD <= fixed_value(body, 3) <= MAX_COORD {
                let v = fixed_value(body, 3) as i64;
                let next = if t[0] == 88 {
                    Point { x: v, ..cur }
                } else if t[0] == 89 {
                    Point { y: v, ..cur }
                } else {
                    Point { z: v, ..cur }
                };
                update_pos(rest, next)
            } else {
                None
            }
        } else {
            update_pos(rest, cur)
        }
    }
}

/// Reads the position a motion command moves to, starting from
/// `current_position`. Axes the line does not mention are carried over.
#[verifier::loop_isolation(false)]
pub fn get_position(line: &[u8], current_position: Point) -> (r: Option<Point>)
    ensures
        r == update_pos(tokens(line@), current_position),
        r is Some ==> current_position.valid() ==> r.unwrap().valid(),
{
    let toks = crate::text::tokenize(line);
    let ghost all = toks@.map_values(|t: Vec<u8>| t@);
    let mut pos = current_position;
    let mut i: usize = 0;
    proof {
        assert(all.skip(0) =~= all);
    }
    while i < toks.len()
        invariant
            0 <= i <= toks@.len(),
            all == toks@.map_values(|t: Vec<u8>| t@),
            update_pos(all, current_position) == update_pos(all.skip(i as int), pos),
            current_position.valid() ==> pos.valid(),
        decreases toks@.len() - i,
    {
        let t = &toks[i];
        proof {
            assert(all.skip(i as int)[0] == all[i as int]);
            assert(all.skip(i as int).skip(1) =~= all.skip(i as int + 1));
        }
        if t.len() > 0 && (t[0] == 88 || t[0] == 89 || t[0] == 90) {
            let body = vstd::slice::slice_subrange(t.as_slice(), 1, t.len());
            proof {
                assert(body@ =~= all[i as int].skip(1));
            }
            let v = match parse_fixed(body, 3) {
                Some(v) => v,
                None => {
                    proof {
                        assert(fixed_mag(body@, 3) > i64::MAX ==> !(
                            -MAX_COORD <= fixed_value(body@, 3) <= MAX_COORD));
                    }
                    return None;
                },
            };
            if v < -MAX_COORD || v > MAX_COORD {
                return None;
            }
            if t[0] == 88 {
                pos.x = v;
            } else if t[0] == 89 {
                pos.y = v;
            } else {
                pos.z = v;
            }
        }
        i = i + 1;
    }
    proof {
        assert(all.skip(i as int) =~= Seq::<Seq<u8>>::empty());
    }
    Some(pos)
}

/// `l` up to its comment: everything before the first semicolon.
pub open spec fn strip_comment(l: Seq<u8>) -> Seq<u8> {
    l.take(find_from(l, 0, 59) as int)
}

/// The command categories a line's first word can fall in.
#[derive(Clone, Copy, PartialEq, Eq, Structural, Debug)]
pub enum Cmd {
    /// `G0`/`G1`: a rapid or linear move.
    Move,
    /// `G20`/`G21`: set the unit of length.
    SetUnits(UnitsMode),
    /// `G28`: home, an absolute travel move.
    Home,
    /// `G90`/`G91`: set the positioning mode.
    SetPosMode(CoordinatesMode),
    /// `M82`/`M83`: set the extrusion mode.
    SetExtruderMode(CoordinatesMode),
    /// `G92`: overwrite the current position.
    SetPosition,
    /// Configuration commands copied to the preamble or postamble.
    Passthrough,
    /// Fan and acceleration commands held for the current layer.
    LayerCmd,
    /// Telemetry and not-yet-treated commands, dropped.
    Ignored,
    /// Anything else: warned about and dropped.
    Unknown,
}

/// The category of the command word `t`.
pub open spec fn classify_spec(t: Seq<u8>) -> Cmd {
    if t == seq![71u8, 48u8] || t == seq![71u8, 49u8] {  // G0 G1
        Cmd::Move
    } else if t == seq![71u8, 50u8, 48u8] {  // G20
        Cmd::SetUnits(UnitsMode::Inches)
    } else if t == seq![71u8, 50u8, 49u8] {  // G21
        Cmd::SetUnits(UnitsMode::Millimeters)
    } else if t == seq![71u8, 50u8, 56u8] {  // G28
        Cmd::Home
    } else if t == seq![71u8, 57u8, 48u8] {  // G90
        Cmd::SetPosMode(CoordinatesMode::Absolute)
    } else if t == seq![71u8, 57u8, 49u8] {  // G91
        Cmd::SetPosMode(CoordinatesMode::Relative)
    } else if t == seq![71u8, 57u8, 50u8] {  // G92
        Cmd::SetPosition
    } else if t == seq![77u8, 56u8, 50u8] {  // M82
        Cmd::SetExtruderMode(CoordinatesMode::Absolute)
    } else if t == seq![77u8, 56u8, 51u8] {  // M83
        Cmd::SetExtruderMode(CoordinatesMode::Relative)
    } else if t == seq![77u8, 49u8, 48u8, 54u8] || t == seq![77u8, 50u8, 48u8, 49u8] {
        // M106 M201
        Cmd::LayerCmd
    } else if t == seq![77u8, 50u8, 48u8, 52u8] || t == seq![77u8, 55u8, 51u8]
        || t == seq![77u8, 55u8, 52u8] {  // M204 M73 M74
        Cmd::Ignored
    } else if t == seq![77u8, 56u8, 52u8] || t == seq![77u8, 49u8, 48u8, 52u8]
        || t == seq![77u8, 49u8, 48u8, 55u8] || t == seq![77u8, 49u8, 48u8, 57u8]
        || t == seq![77u8, 49u8, 52u8, 48u8] || t == seq![77u8, 49u8, 57u8, 48u8]
        || t == seq![84u8, 48u8] || t == seq![71u8, 52u8]
        || t == seq![77u8, 53u8, 57u8, 51u8] || t == seq![77u8, 53u8, 55u8, 50u8]
        || t == seq![77u8, 49u8, 52u8, 50u8] || t == seq![77u8, 57u8, 48u8, 48u8]
        || t == seq![77u8, 50u8, 50u8, 49u8] || t == seq![77u8, 53u8, 54u8, 57u8]
        || t == seq![71u8, 50u8, 57u8] || t == seq![77u8, 51u8, 48u8, 50u8]
        || t == seq![77u8, 53u8, 53u8, 53u8] || t == seq![77u8, 49u8, 49u8, 53u8]
        || t == seq![77u8, 49u8, 55u8] || t == seq![77u8, 50u8, 48u8, 51u8]
        || t == seq![77u8, 50u8, 48u8, 53u8]
        || t == seq![77u8, 56u8, 54u8, 50u8, 46u8, 49u8]
        || t == seq![77u8, 56u8, 54u8, 50u8, 46u8, 51u8]
        || t == seq![77u8, 56u8, 54u8, 50u8, 46u8, 53u8]
        || t == seq![77u8, 56u8, 54u8, 50u8, 46u8, 54u8] {
        // M84 M104 M107 M109 M140 M190 T0 G4 M593 M572 M142 M900 M221 M569
        // G29 M302 M555 M115 M17 M203 M205 M862.1 M862.3 M862.5 M862.6
        Cmd::Passthrough
    } else {
        Cmd::Unknown
    }
}

/// What a scan of a move line's words yields: the incremental extrusion,
/// whether the move extrudes, and an explicit feed rate (0 when none).
#[derive(Clone, Copy, PartialEq, Eq, Structural, Debug)]
pub struct EfScan {
    pub extrusion: i64,
    pub extrudes: bool,
    pub feedrate: i64,
}

/// Folds a move line's words: each `E` word sets the extrusion amount,
/// relative to the running total unless the extruder mode is relative; each
/// `F` word sets the feed rate. `None` when a number is malformed or an
/// amount leaves the representable range.
pub open spec fn scan_ef(toks: Seq<Seq<u8>>, em_rel: bool, last_e: i64, acc: EfScan)
    -> Option<EfScan>
    decreases toks.len(),
{
    if toks.len() == 0 {
        Some(acc)
    } else {
        let t = toks[0];
        let rest = toks.skip(1);
        if t.len() > 0 && t[0] == 69 {  // E
            let body = t.skip(1);
            if fixed_valid(body) && fixed_mag(body, 5) <= i64::MAX {
                let raw = fixed_value(body, 5);
                let e = if !em_rel { raw - last_e } else { raw };
                if i64::MIN < e <= i64::MAX {
                    scan_ef(rest, em_rel, last_e, EfScan {
                        extrusion: e as i64,
                        extrudes: e > 0,
                        feedrate: acc.feedrate,
                    })
                } else {
                    None
                }
            } else {
                None
            }
        } else if t.len() > 0 && t[0] == 70 {  // F
            let body = t.skip(1);
            if fixed_valid(body) && fixed_mag(body, 3) <= i64::MAX {
                scan_ef(rest, em_rel, last_e, EfScan {
                    feedrate: fixed_value(body, 3) as i64,
                    ..acc
                })
            } else {
                None
            }
        } else {
            scan_ef(rest, em_rel, last_e, acc)
        }
    }
}

/// A successful scan yields amounts strictly above the minimum, so they can
/// always be written back out.
pub proof fn lemma_scan_ef_bounds(toks: Seq<Seq<u8>>, em_rel: bool, last_e: i64, acc: EfScan)
    requires
        acc.extrusion > i64::MIN,
        acc.feedrate > i64::MIN,
        scan_ef(toks, em_rel, last_e, acc) is Some,
    ensures
        scan_ef(toks, em_rel, last_e, acc)->Some_0.extrusion > i64::MIN,
        scan_ef(toks, em_rel, last_e, acc)->Some_0.feedrate > i64::MIN,
    decreases toks.len(),
{
    if toks.len() > 0 {
        let t = toks[0];
        let rest = toks.skip(1);
        if t.len() > 0 && t[0] == 69 {
            let body = t.skip(1);
            let raw = fixed_value(body, 5);
            let e = if !em_rel { raw - last_e } else { raw };
            lemma_scan_ef_bounds(rest, em_rel, last_e, EfScan {
                extrusion: e as i64,
                extrudes: e > 0,
                feedrate: acc.feedrate,
            });
        } else if t.len() > 0 && t[0] == 70 {
            let body = t.skip(1);
            lemma_scan_ef_bounds(rest, em_rel, last_e, EfScan {
                feedrate: fixed_value(body, 3) as i64,
                ..acc
            });
        } else {
            lemma_scan_ef_bounds(rest, em_rel, last_e, acc);
        }
    }
}

/// The whole parser state between two lines.
#[verifier::ext_equal]
pub ghost struct ParserModel {
    pub position_mode: CoordinatesMode,
    pub extruder_mode: CoordinatesMode,
    pub units_mode: UnitsMode,
    pub start_commands: Seq<u8>,
    pub end_commands: Seq<u8>,
    pub layers: Seq<LayerModel>,
    pub travel_count: int,
    pub extrude_count: int,
    pub extrusion_distance: int,
    pub travel_distance: int,
    pub line_num: int,
    pub last_position: Point,
    pub current_z: i64,
    pub current_feedrate: i64,
    pub last_extrusion: i64,
    pub last_travel_position: Point,
    pub last_loop_travel: bool,
    pub current_layer: int,
    pub warnings: Seq<Warning>,
}

impl ParserModel {
    /// The state before any line: one empty layer, nothing set.
    pub open spec fn init() -> ParserModel {
        ParserModel {
            position_mode: CoordinatesMode::NotSet,
            extruder_mode: CoordinatesMode::NotSet,
            units_mode: UnitsMode::NotSet,
            start_commands: Seq::empty(),
            end_commands: Seq::empty(),
            layers: seq![LayerModel::empty()],
            travel_count: 0,
            extrude_count: 0,
            extrusion_distance: 0,
            travel_distance: 0,
            line_num: 0,
            last_position: Point { x: 0, y: 0, z: 0 },
            current_z: 0,
            current_feedrate: 1_500_000,
            last_extrusion: 0,
            last_travel_position: Point { x: 0, y: 0, z: 0 },
            last_loop_travel: false,
            current_layer: 0,
            warnings: Seq::empty(),
        }
    }

    /// Structural soundness kept from line to line.
    pub open spec fn wf(self) -> bool {
        &&& self.layers.len() == self.current_layer + 1
        &&& 0 <= self.current_layer
        &&& forall|i: int| 0 <= i < self.layers.len() ==> (#[trigger] self.layers[i]).wf()
        &&& self.last_position.valid()
        &&& self.last_travel_position.valid()
        &&& 0 <= self.line_num
        &&& self.travel_count + self.extrude_count <= self.line_num
        &&& 0 <= self.extrusion_distance <= u64::MAX
        &&& 0 <= self.travel_distance <= u64::MAX
        &&& self.current_feedrate > i64::MIN
    }

    /// A mode-conflict warning on the current line.
    pub open spec fn warn_conflict(self) -> ParserModel {
        ParserModel {
            warnings: self.warnings.push(Warning {
                line: self.line_num as usize,
                kind: WarningKind::ModeConflict,
            }),
            ..self
        }
    }

    /// The layer under construction.
    pub open spec fn cur_layer(self) -> LayerModel {
        self.layers[self.current_layer]
    }

    /// `self` with the layer under construction replaced.
    pub open spec fn with_layer(self, l: LayerModel) -> ParserModel {
        ParserModel { layers: self.layers.update(self.current_layer, l), ..self }
    }
}

/// Adding with the same cap the running totals use.
pub open spec fn sat_add(a: int, b: int) -> int {
    if a + b <= u64::MAX {
        a + b
    } else {
        u64::MAX as int
    }
}

/// The effect of a `G0`/`G1` line: update position, extrusion and feed-rate
/// state, open a layer on a Z change that extrudes, fold travel runs into a
/// pending node, and record the segment's extrusion and feed rate.
pub open spec fn move_spec(m: ParserModel, toks: Seq<Seq<u8>>) -> Option<ParserModel> {
    match update_pos(toks, m.last_position) {
        None => None,
        Some(cur) => match scan_ef(toks, m.extruder_mode is Relative, m.last_extrusion,
            EfScan { extrusion: 0, extrudes: false, feedrate: 0 }) {
            None => None,
            Some(ef) => {
                let dist = if !(m.position_mode is Relative) {
                    spec_distance(cur, m.last_position)
                } else {
                    spec_distance(cur, Point { x: 0, y: 0, z: 0 })
                };
                let m1 = if ef.extrudes {
                    ParserModel {
                        extrude_count: m.extrude_count + 1,
                        extrusion_distance: sat_add(m.extrusion_distance, dist as int),
                        ..m
                    }
                } else {
                    ParserModel {
                        travel_count: m.travel_count + 1,
                        travel_distance: sat_add(m.travel_distance, dist as int),
                        ..m
                    }
                };
                let m2 = if cur.z != m1.current_z && ef.extrudes {
                    ParserModel {
                        current_layer: m1.current_layer + 1,
                        current_z: cur.z,
                        layers: m1.layers.push(LayerModel {
                            nodes: seq![m1.last_position],
                            extrusions: Map::empty(),
                            feedrates: Map::<u32, i64>::empty().insert(0u32, 9_000_000i64),
                            end_commands: Seq::empty(),
                        }),
                        last_loop_travel: false,
                        ..m1
                    }
                } else {
                    m1
                };
                if m2.cur_layer().nodes.len() + 2 > 2_000_000_000 {
                    None
                } else {
                    let sx = m2.last_travel_position.x + cur.x;
                    let sy = m2.last_travel_position.y + cur.y;
                    let sz = m2.last_travel_position.z + cur.z;
                    let travel_sum_ok = !ef.extrudes && m2.position_mode is Relative ==>
                        -MAX_COORD <= sx <= MAX_COORD && -MAX_COORD <= sy <= MAX_COORD
                        && -MAX_COORD <= sz <= MAX_COORD;
                    let m3 = if ef.extrudes {
                        let l0 = m2.cur_layer();
                        let l1 = if m2.last_loop_travel {
                            LayerModel { nodes: l0.nodes.push(m2.last_travel_position), ..l0 }
                        } else {
                            l0
                        };
                        let l2 = LayerModel { nodes: l1.nodes.push(cur), ..l1 };
                        let l3 = LayerModel {
                            extrusions: l2.extrusions.insert(
                                (l2.nodes.len() - 1) as u32, ef.extrusion),
                            ..l2
                        };
                        ParserModel { last_loop_travel: false, ..m2.with_layer(l3) }
                    } else {
                        let nt = if !(m2.position_mode is Relative) {
                            cur
                        } else {
                            Point { x: sx as i64, y: sy as i64, z: sz as i64 }
                        };
                        ParserModel { last_travel_position: nt, last_loop_travel: true, ..m2 }
                    };
                    if !travel_sum_ok {
                        None
                    } else {
                        let fkey = if m3.last_loop_travel {
                            m3.cur_layer().nodes.len() as u32
                        } else {
                            (m3.cur_layer().nodes.len() - 1) as u32
                        };
                        let (fval, nfr) = if ef.feedrate > 0 {
                            (ef.feedrate, ef.feedrate)
                        } else {
                            (m3.current_feedrate, m3.current_feedrate)
                        };
                        let l4 = LayerModel {
                            feedrates: m3.cur_layer().feedrates.insert(fkey, fval),
                            ..m3.cur_layer()
                        };
                        let m4 = ParserModel { current_feedrate: nfr, ..m3.with_layer(l4) };
                        let m5 = if !(m4.position_mode is Relative) {
                            ParserModel { last_position: cur, ..m4 }
                        } else {
                            m4
                        };
                        let newe = if !(m5.extruder_mode is Relative) {
                            m5.last_extrusion + ef.extrusion
                        } else {
                            ef.extrusion as int
                        };
                        if i64::MIN <= newe <= i64::MAX {
                            Some(ParserModel { last_extrusion: newe as i64, ..m5 })
                        } else {
                            None
                        }
                    }
                }
            },
        },
    }
}

/// The effect of one raw input line on the parser state. `None` is a fatal
/// parse fault on this line.
pub open spec fn step_spec(prev: ParserModel, raw: Seq<u8>) -> Option<ParserModel> {
    let m = ParserModel { line_num: prev.line_num + 1, ..prev };
    let line = strip_comment(raw);
    let toks = tokens(line);
    if toks.len() == 0 {
        Some(m)
    } else {
        match classify_spec(toks[0]) {
            Cmd::Move => move_spec(m, toks),
            Cmd::SetUnits(u) => {
                let m1 = if !(m.units_mode is NotSet) {
                    m.warn_conflict()
                } else {
                    m
                };
                Some(ParserModel { units_mode: u, ..m1 })
            },
            Cmd::Home => match update_pos(toks, Point { x: 0, y: 0, z: 0 }) {
                None => None,
                Some(cur) => if m.cur_layer().nodes.len() + 1 > 2_000_000_000 {
                    None
                } else {
                    let dist = spec_distance(cur, m.last_position);
                    let l1 = LayerModel {
                        nodes: m.cur_layer().nodes.push(cur),
                        ..m.cur_layer()
                    };
                    Some(ParserModel {
                        travel_distance: sat_add(m.travel_distance, dist as int),
                        last_position: cur,
                        ..m.with_layer(l1)
                    })
                },
            },
            Cmd::SetPosMode(p) => {
                let m1 = if !(m.position_mode is NotSet) {
                    m.warn_conflict()
                } else {
                    m
                };
                Some(ParserModel { position_mode: p, ..m1 })
            },
            Cmd::SetExtruderMode(e) => {
                let m1 = if !(m.extruder_mode is NotSet) {
                    m.warn_conflict()
                } else {
                    m
                };
                Some(ParserModel { extruder_mode: e, ..m1 })
            },
            Cmd::SetPosition => match update_pos(toks, m.last_position) {
                None => None,
                Some(cur) => Some(ParserModel { last_position: cur, ..m }),
            },
            Cmd::Passthrough => if m.current_layer == 0 {
                Some(ParserModel {
                    start_commands: m.start_commands + line + seq![10u8],
                    ..m
                })
            } else {
                Some(ParserModel { end_commands: m.end_commands + line + seq![10u8], ..m })
            },
            Cmd::LayerCmd => {
                let l1 = LayerModel {
                    end_commands: m.cur_layer().end_commands + line + seq![10u8],
                    ..m.cur_layer()
                };
                Some(m.with_layer(l1))
            },
            Cmd::Ignored => Some(m),
            Cmd::Unknown => Some(ParserModel {
                warnings: m.warnings.push(Warning {
                    line: m.line_num as usize,
                    kind: WarningKind::UnknownCommand,
                }),
                ..m
            }),
        }
    }
}

/// The parser state after the lines `ls`, or the one-based number of the
/// first line it faults on.
pub open spec fn run_spec(m: ParserModel, ls: Seq<Seq<u8>>) -> Result<ParserModel, int>
    decreases ls.len(),
{
    if ls.len() == 0 {
        Ok(m)
    } else {
        match step_spec(m, ls[0]) {
            None => Err(m.line_num + 1),
            Some(m2) => run_spec(m2, ls.skip(1)),
        }
    }
}

/// `t` is the two bytes `a`, `b`.
fn tok_is2(t: &Vec<u8>, a: u8, b: u8) -> (r: bool)
    ensures
        r == (t@ == seq![a, b]),
{
    let r = t.len() == 2 && t[0] == a && t[1] == b;
    proof {
        if r {
            assert(t@ =~= seq![a, b]);
        } else if t@ == seq![a, b] {
            assert(t@.len() == 2 && t@[0] == a && t@[1] == b);
        }
    }
    r
}

/// `t` is the three bytes `a`, `b`, `c`.
fn tok_is3(t: &Vec<u8>, a: u8, b: u8, c: u8) -> (r: bool)
    ensures
        r == (t@ == seq![a, b, c]),
{
    let r = t.len() == 3 && t[0] == a && t[1] == b && t[2] == c;
    proof {
        if r {
            assert(t@ =~= seq![a, b, c]);
        } else if t@ == seq![a, b, c] {
            assert(t@.len() == 3 && t@[0] == a && t@[1] == b && t@[2] == c);
        }
    }
    r
}

/// `t` is the four bytes `a`, `b`, `c`, `d`.
fn tok_is4(t: &Vec<u8>, a: u8, b: u8, c: u8, d: u8) -> (r: bool)
    ensures
        r == (t@ == seq![a, b, c, d]),
{
    let r = t.len() == 4 && t[0] == a && t[1] == b && t[2] == c && t[3] == d;
    proof {
        if r {
            assert(t@ =~= seq![a, b, c, d]);
        } else if t@ == seq![a, b, c, d] {
            assert(t@.len() == 4 && t@[0] == a && t@[1] == b && t@[2] == c && t@[3] == d);
        }
    }
    r
}

/// `t` is `M862.` followed by the digit `f`.
fn tok_is_m862(t: &Vec<u8>, f: u8) -> (r: bool)
    ensures
        r == (t@ == seq![77u8, 56u8, 54u8, 50u8, 46u8, f]),
{
    let r = t.len() == 6 && t[0] == 77 && t[1] == 56 && t[2] == 54 && t[3] == 50 && t[4] == 46
        && t[5] == f;
    proof {
        if r {
            assert(t@ =~= seq![77u8, 56u8, 54u8, 50u8, 46u8, f]);
        } else if t@ == seq![77u8, 56u8, 54u8, 50u8, 46u8, f] {
            assert(t@.len() == 6 && t@[0] == 77 && t@[1] == 56 && t@[2] == 54 && t@[3] == 50
                && t@[4] == 46 && t@[5] == f);
        }
    }
    r
}

/// Sorts a command word into its category.
fn classify(t: &Vec<u8>) -> (c: Cmd)
    ensures
        c == classify_spec(t@),
{
    if tok_is2(t, 71, 48) || tok_is2(t, 71, 49) {
        Cmd::Move
    } else if tok_is3(t, 71, 50, 48) {
        Cmd::SetUnits(UnitsMode::Inches)
    } else if tok_is3(t, 71, 50, 49) {
        Cmd::SetUnits(UnitsMode::Millimeters)
    } else if tok_is3(t, 71, 50, 56) {
        Cmd::Home
    } else if tok_is3(t, 71, 57, 48) {
        Cmd::SetPosMode(CoordinatesMode::Absolute)
    } else if tok_is3(t, 71, 57, 49) {
        Cmd::SetPosMode(CoordinatesMode::Relative)
    } else if tok_is3(t, 71, 57, 50) {
        Cmd::SetPosition
    } else if tok_is3(t, 77, 56, 50) {
        Cmd::SetExtruderMode(CoordinatesMode::Absolute)
    } else if tok_is3(t, 77, 56, 51) {
        Cmd::SetExtruderMode(CoordinatesMode::Relative)
    } else if tok_is4(t, 77, 49, 48, 54) || tok_is4(t, 77, 50, 48, 49) {
        Cmd::LayerCmd
    } else if tok_is4(t, 77, 50, 48, 52) || tok_is3(t, 77, 55, 51) || tok_is3(t, 77, 55, 52) {
        Cmd::Ignored
    } else if tok_is3(t, 77, 56, 52) || tok_is4(t, 77, 49, 48, 52) || tok_is4(t, 77, 49, 48, 55)
        || tok_is4(t, 77, 49, 48, 57) || tok_is4(t, 77, 49, 52, 48) || tok_is4(t, 77, 49, 57, 48)
        || tok_is2(t, 84, 48) || tok_is2(t, 71, 52) || tok_is4(t, 77, 53, 57, 51)
        || tok_is4(t, 77, 53, 55, 50) || tok_is4(t, 77, 49, 52, 50) || tok_is4(t, 77, 57, 48, 48)
        || tok_is4(t, 77, 50, 50, 49) || tok_is4(t, 77, 53, 54, 57) || tok_is3(t, 71, 50, 57)
        || tok_is4(t, 77, 51, 48, 50) || tok_is4(t, 77, 53, 53, 53) || tok_is4(t, 77, 49, 49, 53)
        || tok_is3(t, 77, 49, 55) || tok_is4(t, 77, 50, 48, 51) || tok_is4(t, 77, 50, 48, 53)
        || tok_is_m862(t, 49) || tok_is_m862(t, 51) || tok_is_m862(t, 53) || tok_is_m862(t, 54) {
        Cmd::Passthrough
    } else {
        Cmd::Unknown
    }
}

/// Scans a move line's words for extrusion and feed-rate arguments.
#[verifier::loop_isolation(false)]
fn scan_ef_exec(toks: &Vec<Vec<u8>>, em_rel: bool, last_e: i64) -> (r: Option<EfScan>)
    ensures
        r == scan_ef(toks@.map_values(|t: Vec<u8>| t@), em_rel, last_e,
            EfScan { extrusion: 0, extrudes: false, feedrate: 0 }),
{
    let ghost all = toks@.map_values(|t: Vec<u8>| t@);
    let mut acc = EfScan { extrusion: 0, extrudes: false, feedrate: 0 };
    let mut i: usize = 0;
    proof {
        assert(all.skip(0) =~= all);
    }
    while i < toks.len()
        invariant
            0 <= i <= all.len(),
            all == toks@.map_values(|t: Vec<u8>| t@),
            scan_ef(all, em_rel, last_e, EfScan { extrusion: 0, extrudes: false, feedrate: 0 })
                == scan_ef(all.skip(i as int), em_rel, last_e, acc),
        decreases all.len() - i,
    {
        let t = &toks[i];
        proof {
            assert(all.skip(i as int)[0] == all[i as int]);
            assert(all.skip(i as int).skip(1) =~= all.skip(i as int + 1));
        }
        if t.len() > 0 && t[0] == 69 {
            let body = vstd::slice::slice_subrange(t.as_slice(), 1, t.len());
            proof {
                assert(body@ =~= all[i as int].skip(1));
            }
            let raw = match parse_fixed(body, 5) {
                Some(v) => v,
                None => {
                    return None;
                },
            };
            let e = if !em_rel {
                match raw.checked_sub(last_e) {
                    Some(e) => e,
                    None => {
                        return None;
                    },
                }
            } else {
                raw
            };
            if e == i64::MIN {
                return None;
            }
            acc = EfScan { extrusion: e, extrudes: e > 0, feedrate: acc.feedrate };
        } else if t.len() > 0 && t[0] == 70 {
            let body = vstd::slice::slice_subrange(t.as_slice(), 1, t.len());
            proof {
                assert(body@ =~= all[i as int].skip(1));
            }
            let f = match parse_fixed(body, 3) {
                Some(v) => v,
                None => {
                    return None;
                },
            };
            acc = EfScan { extrusion: acc.extrusion, extrudes: acc.extrudes, feedrate: f };
        }
        i = i + 1;
    }
    proof {
        assert(all.skip(i as int) =~= Seq::<Seq<u8>>::empty());
    }
    Some(acc)
}

/// The parser's working state; its view is the `ParserModel` the line specs
/// speak of.
pub struct Parser {
    pub position_mode: CoordinatesMode,
    pub extruder_mode: CoordinatesMode,
    pub units_mode: UnitsMode,
    pub start_commands: Vec<u8>,
    pub end_commands: Vec<u8>,
    pub layers: Vec<GCodeLayer>,
    pub travel_count: u64,
    pub extrude_count: u64,
    pub extrusion_distance: u64,
    pub travel_distance: u64,
    pub line_num: usize,
    pub last_position: Point,
    pub current_z: i64,
    pub current_feedrate: i64,
    pub last_extrusion: i64,
    pub last_travel_position: Point,
    pub last_loop_travel: bool,
    pub current_layer: usize,
    pub warnings: Vec<Warning>,
}

impl View for Parser {
    type V = ParserModel;

    open spec fn view(&self) -> ParserModel {
        ParserModel {
            position_mode: self.position_mode,
            extruder_mode: self.extruder_mode,
            units_mode: self.units_mode,
            start_commands: self.start_commands@,
            end_commands: self.end_commands@,
            layers: self.layers@.map_values(|l: GCodeLayer| l@),
            travel_count: self.travel_count as int,
            extrude_count: self.extrude_count as int,
            extrusion_distance: self.extrusion_distance as int,
            travel_distance: self.travel_distance as int,
            line_num: self.line_num as int,
            last_position: self.last_position,
            current_z: self.current_z,
            current_feedrate: self.current_feedrate,
            last_extrusion: self.last_extrusion,
            last_travel_position: self.last_travel_position,
            last_loop_travel: self.last_loop_travel,
            current_layer: self.current_layer as int,
            warnings: self.warnings@,
        }
    }
}

impl Parser {
    /// The state before any line.
    fn new() -> (r: Parser)
        ensures
            r@ =~= ParserModel::init(),
            r@.wf(),
    {
        let mut layers: Vec<GCodeLayer> = Vec::new();
        layers.push(GCodeLayer::new());
        let r = Parser {
            position_mode: CoordinatesMode::NotSet,
            extruder_mode: CoordinatesMode::NotSet,
            units_mode: UnitsMode::NotSet,
            start_commands: Vec::new(),
            end_commands: Vec::new(),
            layers,
            travel_count: 0,
            extrude_count: 0,
            extrusion_distance: 0,
            travel_distance: 0,
            line_num: 0,
            last_position: Point { x: 0, y: 0, z: 0 },
            current_z: 0,
            current_feedrate: 1_500_000,
            last_extrusion: 0,
            last_travel_position: Point { x: 0, y: 0, z: 0 },
            last_loop_travel: false,
            current_layer: 0,
            warnings: Vec::new(),
        };
        proof {
            assert(r@.layers =~= seq![LayerModel::empty()]);
        }
        r
    }

    /// Applies a motion command whose words are `toks`, taken apart already.
    #[verifier::loop_isolation(false)]
    #[verifier::rlimit(80)]
    fn apply_move(&mut self, line: &[u8], toks: &Vec<Vec<u8>>) -> (ok: bool)
        requires
            old(self)@.wf(),
            old(self)@.travel_count + old(self)@.extrude_count < old(self)@.line_num,
            old(self)@.line_num <= usize::MAX,
            tokens(line@) == toks@.map_values(|t: Vec<u8>| t@),
        ensures
            ok == (move_spec(old(self)@, toks@.map_values(|t: Vec<u8>| t@)) is Some),
            ok ==> final(self)@ == move_spec(old(self)@,
                toks@.map_values(|t: Vec<u8>| t@)).unwrap(),
            ok ==> final(self)@.wf(),
    {
        let ghost m = old(self)@;
        let ghost all = toks@.map_values(|t: Vec<u8>| t@);
        let cur = match get_position(line, self.last_position) {
            Some(c) => c,
            None => {
                return false;
            },
        };
        let ef = match scan_ef_exec(toks, self.extruder_mode == CoordinatesMode::Relative,
            self.last_extrusion) {
            Some(e) => e,
            None => {
                return false;
            },
        };
        proof {
            lemma_scan_ef_bounds(all, m.extruder_mode is Relative, m.last_extrusion,
                EfScan { extrusion: 0, extrudes: false, feedrate: 0 });
        }
        let dist: u64 = if self.position_mode != CoordinatesMode::Relative {
            distance_3d(cur, self.last_position)
        } else {
            distance_to_origin(cur)
        };
        if ef.extrudes {
            self.extrude_count = self.extrude_count + 1;
            self.extrusion_distance = self.extrusion_distance.saturating_add(dist);
        } else {
            self.travel_count = self.travel_count + 1;
            self.travel_distance = self.travel_distance.saturating_add(dist);
        }
        let ghost specdist = if !(m.position_mode is Relative) {
            spec_distance(cur, m.last_position)
        } else {
            spec_distance(cur, Point { x: 0, y: 0, z: 0 })
        };
        let ghost m1 = if ef.extrudes {
            ParserModel {
                extrude_count: m.extrude_count + 1,
                extrusion_distance: sat_add(m.extrusion_distance, specdist as int),
                ..m
            }
        } else {
            ParserModel {
                travel_count: m.travel_count + 1,
                travel_distance: sat_add(m.travel_distance, specdist as int),
                ..m
            }
        };
        proof {
            assert(dist == specdist);
            assert(self@ =~= m1);
        }
        if cur.z != self.current_z && ef.extrudes {
            let mut nl = GCodeLayer::new();
            nl.feedrates.insert(0, 9_000_000);
            nl.nodes.push(self.last_position);
            proof {
                assert(nl@ =~= LayerModel {
                    nodes: seq![m1.last_position],
                    extrusions: Map::empty(),
                    feedrates: Map::<u32, i64>::empty().insert(0u32, 9_000_000i64),
                    end_commands: Seq::empty(),
                });
            }
            self.layers.push(nl);
            self.current_layer = self.layers.len() - 1;
            self.current_z = cur.z;
            self.last_loop_travel = false;
        }
        let ghost m2 = if cur.z != m1.current_z && ef.extrudes {
            ParserModel {
                current_layer: m1.current_layer + 1,
                current_z: cur.z,
                layers: m1.layers.push(LayerModel {
                    nodes: seq![m1.last_position],
                    extrusions: Map::empty(),
                    feedrates: Map::<u32, i64>::empty().insert(0u32, 9_000_000i64),
                    end_commands: Seq::empty(),
                }),
                last_loop_travel: false,
                ..m1
            }
        } else {
            m1
        };
        proof {
            assert(self@.layers =~= m2.layers);
            assert(self@ =~= m2);
            assert(self@.current_layer < self@.layers.len());
        }
        let cl = self.current_layer;
        let nlen = self.layers[cl].nodes.len();
        if nlen as u64 + 2 > 2_000_000_000u64 {
            return false;
        }
        if ef.extrudes {
            let pending = self.last_loop_travel;
            let ltp = self.last_travel_position;
            let layer = &mut self.layers[cl];
            if pending {
                layer.nodes.push(ltp);
            }
            layer.nodes.push(cur);
            let key = (layer.nodes.len() - 1) as u32;
            layer.extrusions.insert(key, ef.extrusion);
            self.last_loop_travel = false;
        } else {
            if self.position_mode == CoordinatesMode::Relative {
                let sx = match self.last_travel_position.x.checked_add(cur.x) {
                    Some(v) => v,
                    None => {
                        return false;
                    },
                };
                let sy = match self.last_travel_position.y.checked_add(cur.y) {
                    Some(v) => v,
                    None => {
                        return false;
                    },
                };
                let sz = match self.last_travel_position.z.checked_add(cur.z) {
                    Some(v) => v,
                    None => {
                        return false;
                    },
                };
                if sx < -MAX_COORD || sx > MAX_COORD || sy < -MAX_COORD || sy > MAX_COORD
                    || sz < -MAX_COORD || sz > MAX_COORD {
                    return false;
                }
                self.last_travel_position = Point { x: sx, y: sy, z: sz };
            } else {
                self.last_travel_position = cur;
            }
            self.last_loop_travel = true;
        }
        let ghost m3 = if ef.extrudes {
            let l0 = m2.cur_layer();
            let l1 = if m2.last_loop_travel {
                LayerModel { nodes: l0.nodes.push(m2.last_travel_position), ..l0 }
            } else {
                l0
            };
            let l2 = LayerModel { nodes: l1.nodes.push(cur), ..l1 };
            let l3 = LayerModel {
                extrusions: l2.extrusions.insert((l2.nodes.len() - 1) as u32, ef.extrusion),
                ..l2
            };
            ParserModel { last_loop_travel: false, ..m2.with_layer(l3) }
        } else {
            let nt = if !(m2.position_mode is Relative) {
                cur
            } else {
                Point {
                    x: (m2.last_travel_position.x + cur.x) as i64,
                    y: (m2.last_travel_position.y + cur.y) as i64,
                    z: (m2.last_travel_position.z + cur.z) as i64,
                }
            };
            ParserModel { last_travel_position: nt, last_loop_travel: true, ..m2 }
        };
        proof {
            assert(self@.layers =~= m3.layers);
            assert(self@ =~= m3);
        }
        let cl2 = self.current_layer;
        let llt = self.last_loop_travel;
        let len2 = self.layers[cl2].nodes.len();
        let key = if llt {
            len2 as u32
        } else {
            (len2 - 1) as u32
        };
        let fv = if ef.feedrate > 0 {
            self.current_feedrate = ef.feedrate;
            ef.feedrate
        } else {
            self.current_feedrate
        };
        let layer = &mut self.layers[cl2];
        layer.feedrates.insert(key, fv);
        let ghost m4 = {
            let fkey = if m3.last_loop_travel {
                m3.cur_layer().nodes.len() as u32
            } else {
                (m3.cur_layer().nodes.len() - 1) as u32
            };
            let fval = if ef.feedrate > 0 { ef.feedrate } else { m3.current_feedrate };
            let nfr = fval;
            let l4 = LayerModel {
                feedrates: m3.cur_layer().feedrates.insert(fkey, fval),
                ..m3.cur_layer()
            };
            ParserModel { current_feedrate: nfr, ..m3.with_layer(l4) }
        };
        proof {
            assert(self@.layers =~= m4.layers);
            assert(self@ =~= m4);
        }
        if self.position_mode != CoordinatesMode::Relative {
            self.last_position = cur;
        }
        let ghost m5 = if !(m4.position_mode is Relative) {
            ParserModel { last_position: cur, ..m4 }
        } else {
            m4
        };
        let newe = if self.extruder_mode != CoordinatesMode::Relative {
            match self.last_extrusion.checked_add(ef.extrusion) {
                Some(v) => v,
                None => {
                    return false;
                },
            }
        } else {
            ef.extrusion
        };
        self.last_extrusion = newe;
        proof {
            assert(self@ =~= ParserModel { last_extrusion: newe, ..m5 });
            assert(move_spec(m, all) == Some(ParserModel { last_extrusion: newe, ..m5 }));
            assert(self@.wf());
        }
        true
    }
}

/// There are never more lines than bytes left.
proof fn lemma_lines_count(s: Seq<u8>, i: nat)
    requires
        i <= s.len(),
    ensures
        lines_from(s, i).len() <= s.len() - i,
    decreases s.len() - i,
{
    if i < s.len() {
        lemma_find_from(s, i, 10);
        let j = find_from(s, i, 10);
        if j < s.len() {
            lemma_lines_count(s, j + 1);
        }
    }
}

impl Parser {
    /// Applies one raw line to the parser state; false is a fatal fault.
    #[verifier::loop_isolation(false)]
    #[verifier::rlimit(60)]
    fn step(&mut self, raw: &[u8]) -> (ok: bool)
        requires
            old(self)@.wf(),
            old(self)@.line_num < usize::MAX,
        ensures
            ok == (step_spec(old(self)@, raw@) is Some),
            ok ==> final(self)@ == step_spec(old(self)@, raw@).unwrap(),
            ok ==> final(self)@.wf(),
    {
        let ghost prev = self@;
        self.line_num = self.line_num + 1;
        let ghost m = ParserModel { line_num: prev.line_num + 1, ..prev };
        proof {
            assert(self@ =~= m);
            lemma_find_from(raw@, 0, 59);
        }
        let ce = find_byte(raw, 0, 59);
        let line = vstd::slice::slice_subrange(raw, 0, ce);
        proof {
            assert(line@ =~= strip_comment(raw@));
        }
        let toks = tokenize(line);
        let ghost all = toks@.map_values(|t: Vec<u8>| t@);
        if toks.len() == 0 {
            proof {
                assert(tokens(line@).len() == 0);
            }
            return true;
        }
        proof {
            assert(all[0] == toks@[0]@);
        }
        let cmd = classify(&toks[0]);
        match cmd {
            Cmd::Move => {
                let ok = self.apply_move(line, &toks);
                proof {
                    assert(step_spec(prev, raw@) == move_spec(m, all));
                }
                ok
            },
            Cmd::SetUnits(u) => {
                if self.units_mode != UnitsMode::NotSet {
                    self.warnings.push(Warning { line: self.line_num, kind: WarningKind::ModeConflict });
                }
                self.units_mode = u;
                proof {
                    let m1 = if !(m.units_mode is NotSet) { m.warn_conflict() } else { m };
                    assert(self@ =~= ParserModel { units_mode: u, ..m1 });
                }
                true
            },
            Cmd::Home => {
                let cur = match get_position(line, Point { x: 0, y: 0, z: 0 }) {
                    Some(c) => c,
                    None => {
                        return false;
                    },
                };
                let cl = self.current_layer;
                let nlen = self.layers[cl].nodes.len();
                if nlen as u64 + 1 > 2_000_000_000u64 {
                    return false;
                }
                let dist = distance_3d(cur, self.last_position);
                self.travel_distance = self.travel_distance.saturating_add(dist);
                self.last_position = cur;
                let layer = &mut self.layers[cl];
                layer.nodes.push(cur);
                proof {
                    let l1 = LayerModel {
                        nodes: m.cur_layer().nodes.push(cur),
                        ..m.cur_layer()
                    };
                    let m1 = ParserModel {
                        travel_distance: sat_add(m.travel_distance,
                            spec_distance(cur, m.last_position) as int),
                        last_position: cur,
                        ..m.with_layer(l1)
                    };
                    assert(self@.layers =~= m1.layers);
                    assert(self@ =~= m1);
                    assert(self@.wf());
                }
                true
            },
            Cmd::SetPosMode(p) => {
                if self.position_mode != CoordinatesMode::NotSet {
                    self.warnings.push(Warning { line: self.line_num, kind: WarningKind::ModeConflict });
                }
                self.position_mode = p;
                proof {
                    let m1 = if !(m.position_mode is NotSet) { m.warn_conflict() } else { m };
                    assert(self@ =~= ParserModel { position_mode: p, ..m1 });
                }
                true
            },
            Cmd::SetExtruderMode(e) => {
                if self.extruder_mode != CoordinatesMode::NotSet {
                    self.warnings.push(Warning { line: self.line_num, kind: WarningKind::ModeConflict });
                }
                self.extruder_mode = e;
                proof {
                    let m1 = if !(m.extruder_mode is NotSet) { m.warn_conflict() } else { m };
                    assert(self@ =~= ParserModel { extruder_mode: e, ..m1 });
                }
                true
            },
            Cmd::SetPosition => {
                let cur = match get_position(line, self.last_position) {
                    Some(c) => c,
                    None => {
                        return false;
                    },
                };
                self.last_position = cur;
                proof {
                    assert(self@ =~= ParserModel { last_position: cur, ..m });
                }
                true
            },
            Cmd::Passthrough => {
                if self.current_layer == 0 {
                    crate::text::write_line(&mut self.start_commands, line);
                    proof {
                        assert(self@ =~= ParserModel {
                            start_commands: m.start_commands + line@ + seq![10u8],
                            ..m
                        });
                    }
                } else {
                    crate::text::write_line(&mut self.end_commands, line);
                    proof {
                        assert(self@ =~= ParserModel {
                            end_commands: m.end_commands + line@ + seq![10u8],
                            ..m
                        });
                    }
                }
                true
            },
            Cmd::LayerCmd => {
                let cl = self.current_layer;
                let layer = &mut self.layers[cl];
                crate::text::write_line(&mut layer.end_commands, line);
                proof {
                    let l1 = LayerModel {
                        end_commands: m.cur_layer().end_commands + line@ + seq![10u8],
                        ..m.cur_layer()
                    };
                    assert(self@.layers =~= m.with_layer(l1).layers);
                    assert(self@ =~= m.with_layer(l1));
                }
                true
            },
            Cmd::Ignored => {
                true
            },
            Cmd::Unknown => {
                self.warnings.push(Warning { line: self.line_num, kind: WarningKind::UnknownCommand });
                proof {
                    assert(self@ =~= ParserModel {
                        warnings: m.warnings.push(Warning {
                            line: m.line_num as usize,
                            kind: WarningKind::UnknownCommand,
                        }),
                        ..m
                    });
                }
                true
            },
        }
    }
}

impl GCode {
    /// Builds the program model from the raw command stream, line by line.
    /// The result is exactly the fold of the per-line transition over the
    /// input's lines; a fatal fault reports the first offending line.
    #[verifier::loop_isolation(false)]
    #[verifier::rlimit(100)]
    pub fn parse(file_path: &str, contents: &[u8]) -> (r: Result<(GCode, Vec<Warning>), ParseError>)
        ensures
            match r {
                Ok((g, w)) => {
                    &&& run_spec(ParserModel::init(), lines(contents@)) is Ok
                    &&& {
                        let m = run_spec(ParserModel::init(), lines(contents@))->Ok_0;
                        &&& g.position_mode == m.position_mode
                        &&& g.extruder_mode == m.extruder_mode
                        &&& g.stats.units_mode == m.units_mode
                        &&& g.start_commands@ == m.start_commands
                        &&& g.end_commands@ == m.end_commands
                        &&& g.layers@.map_values(|l: GCodeLayer| l@) == m.layers
                        &&& g.travel_count == m.travel_count
                        &&& g.extrude_count == m.extrude_count
                        &&& g.stats.extrusion_distance == m.extrusion_distance
                        &&& g.stats.travel_distance == m.travel_distance
                        &&& w@ == m.warnings
                        &&& g.file_path@ == file_path@
                        &&& g.contents@ == contents@
                        &&& g.wf()
                    }
                },
                Err(e) => run_spec(ParserModel::init(), lines(contents@))
                    == Err::<ParserModel, int>(e.line as int),
            },
    {
        let ghost s = contents@;
        let mut p = Parser::new();
        let mut i: usize = 0;
        proof {
            lemma_lines_count(s, 0);
        }
        while i < contents.len()
            invariant
                0 <= i <= s.len(),
                p@.wf(),
                p@.line_num + lines_from(s, i as nat).len() <= s.len(),
                run_spec(ParserModel::init(), lines(s)) == run_spec(p@, lines_from(s, i as nat)),
            decreases s.len() - i,
        {
            proof {
                lemma_find_from(s, i as nat, 10);
            }
            let nl = find_byte(contents, i, 10);
            let mut stop = nl;
            if nl > i && contents[nl - 1] == 13 {
                stop = nl - 1;
            }
            let line = vstd::slice::slice_subrange(contents, i, stop);
            proof {
                assert(line@ =~= strip_cr(s.subrange(i as int, find_from(s, i as nat, 10) as int)));
                assert(lines_from(s, i as nat)[0] == line@);
            }
            let ghost pre = p@;
            let lineno = p.line_num;
            let ok = p.step(line);
            if !ok {
                proof {
                    assert(lines_from(s, i as nat) == seq![line@] + if find_from(s, i as nat, 10)
                        < s.len() { lines_from(s, find_from(s, i as nat, 10) + 1) }
                        else { Seq::<Seq<u8>>::empty() });
                    assert(run_spec(pre, lines_from(s, i as nat)) == Err::<ParserModel, int>(
                        pre.line_num + 1));
                }
                return Err(ParseError { line: lineno + 1 });
            }
            proof {
                let rest = if find_from(s, i as nat, 10) < s.len() {
                    lines_from(s, find_from(s, i as nat, 10) + 1)
                } else {
                    Seq::<Seq<u8>>::empty()
                };
                assert(lines_from(s, i as nat) == seq![line@] + rest);
                assert((seq![line@] + rest).skip(1) =~= rest);
                assert(run_spec(pre, lines_from(s, i as nat)) == run_spec(p@, rest));
            }
            if nl < contents.len() {
                i = nl + 1;
                proof {
                    lemma_lines_count(s, i as nat);
                }
            } else {
                i = nl;
                proof {
                    assert(lines_from(s, i as nat) =~= Seq::<Seq<u8>>::empty());
                }
            }
        }
        proof {
            assert(lines_from(s, i as nat) =~= Seq::<Seq<u8>>::empty());
            assert(run_spec(p@, lines_from(s, i as nat)) == Ok::<ParserModel, int>(p@));
        }
        let g = GCode {
            file_path: file_path.to_owned(),
            contents: vstd::slice::slice_to_vec(contents),
            position_mode: p.position_mode,
            extruder_mode: p.extruder_mode,
            start_commands: p.start_commands,
            end_commands: p.end_commands,
            layers: p.layers,
            travel_count: p.travel_count,
            extrude_count: p.extrude_count,
            stats: GCodeStats {
                extrusion_distance: p.extrusion_distance,
                travel_distance: p.travel_distance,
                units_mode: p.units_mode,
            },
        };
        proof {
            assert(g.layers@.map_values(|l: GCodeLayer| l@) == p@.layers);
            assert forall|i: int| 0 <= i < g.layers@.len() implies (#[trigger] g.layers@[i])@.wf()
            by {
                assert(p@.layers[i] == g.layers@[i]@);
            }
        }
        Ok((g, p.warnings))
    }
}

} // verus!
