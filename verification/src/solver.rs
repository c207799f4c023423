//! What the desk asks the fabricator's impedance solver, and how its
//! answer becomes a result.
use vstd::prelude::*;
use vstd::string::*;

use crate::ids::{is_prefixed_uuid, new_session_id};
use crate::models::{ImpedanceReq, ImpedanceResult, ReqView, ResultView, StackupTemplate};
use crate::text::{contains_str, has_substring};

verus! {

/// The solver's model for a line topology on a stack-up.
pub open spec fn spec_calc_mark(mode: Seq<char>, layer: u32, plate_layers: u32) -> Seq<char> {
    let is_diff = has_substring(mode, "差分"@);
    let is_coplanar = has_substring(mode, "共面"@);
    let is_no_mask = has_substring(mode, "不带防焊"@);
    let is_inner = layer > 1 && layer < plate_layers;
    if is_diff {
        if is_coplanar {
            "W2_DiffCoatedCoplanarWaveguideWithLowerGnd1B"@
        } else if is_inner {
            "W2_DiffOffsetStripline1B1A"@
        } else {
            "W2_DiffEdgeCoupledCoatedMicrostrip1B"@
        }
    } else if is_coplanar {
        if is_no_mask {
            "W2_SurfaceCoplanarWaveguideWithLowerGnd1B"@
        } else {
            "W2_CoatedCoplanarWaveguideWithLowerGnd1B"@
        }
    } else if is_inner {
        "W2_OffsetStripline1B1A"@
    } else if is_no_mask {
        "W2_SurfaceMicrostrip1B"@
    } else {
        "W2_CoatedMicrostrip1B"@
    }
}

/// The solver's calculation arguments. Quantities are thousandths of
/// their unit except `calculate_mode`, `min_w2`, `max_w2` and `hz0`,
/// which the solver takes as whole numbers.
pub struct CalcArgs {
    pub h1: u32,
    pub er1: u32,
    pub w1: u32,
    pub w2: u32,
    pub t1: u32,
    pub c1: u32,
    pub c2: u32,
    pub cer: u32,
    pub zo: u32,
    pub calculate_mode: u32,
    pub link_computing_mode: bool,
    pub w2_link_w1_incr: u32,
    pub zo_tol: u32,
    pub min_w2: u32,
    pub max_w2: u32,
    /// Pair spacing, differential modes only.
    pub s1: Option<u32>,
    /// Solder mask between the pair, differential modes only.
    pub c3: Option<u32>,
    /// Differential impedance hint, differential modes only.
    pub hz0: Option<u32>,
    /// Ground gap, coplanar modes only.
    pub d1: Option<u32>,
}

/// The arguments sent for `req` on a stack-up with `plate_layers` layers:
/// a fixed 8.126 mil, Er 4.3 reference dielectric; 1.6 mil copper on an
/// outer layer and 0.6 mil inside; starting widths 5.2/4.5 mil for a
/// pair and 8.0/7.5 mil otherwise; solder mask 1.2/0.6 mil with Er 3.8,
/// or none (Er 1.0) for a bare-copper mode; the requirement's own
/// target and tolerance; spacing (default 5.5 mil), inner mask and
/// the 108 ohm hint for a pair; ground gap (default 8.0 mil) for a
/// coplanar line.
pub open spec fn spec_calc_args(req: ReqView, plate_layers: u32) -> CalcArgs {
    let is_diff = has_substring(req.mode, "差分"@);
    let is_coplanar = has_substring(req.mode, "共面"@);
    let is_no_mask = has_substring(req.mode, "不带防焊"@);
    CalcArgs {
        h1: 8126,
        er1: 4300,
        w1: if is_diff { 5200 } else { 8000 },
        w2: if is_diff { 4500 } else { 7500 },
        t1: if req.layer == 1 || req.layer == plate_layers { 1600 } else { 600 },
        c1: if is_no_mask { 0 } else { 1200 },
        c2: if is_no_mask { 0 } else { 600 },
        cer: if is_no_mask { 1000 } else { 3800 },
        zo: req.target_zo,
        calculate_mode: 3,
        link_computing_mode: false,
        w2_link_w1_incr: 500,
        zo_tol: req.tolerance,
        min_w2: 2,
        max_w2: 150,
        s1: if is_diff { Some(req.s1.unwrap_or(5500)) } else { None },
        c3: if is_diff { Some(if is_no_mask { 0u32 } else { 1200u32 }) } else { None },
        hz0: if is_diff { Some(108u32) } else { None },
        d1: if is_coplanar { Some(req.d1.unwrap_or(8000)) } else { None },
    }
}

/// One request to the solver.
pub struct CalcPayload {
    /// `gpui-` and a fresh random UUID, new for every request.
    pub access_id: String,
    pub calc_mark: String,
    pub param_md5: String,
    pub args: CalcArgs,
    /// The desk's session id.
    pub uuid: String,
}

fn calc_mark(mode: &str, layer: u32, plate_layers: u32) -> (m: String)
    ensures
        m@ == spec_calc_mark(mode@, layer, plate_layers),
{
    proof {
        reveal_strlit("差分");
        reveal_strlit("共面");
        reveal_strlit("不带防焊");
    }
    let is_diff = contains_str(mode, "差分");
    let is_coplanar = contains_str(mode, "共面");
    let is_no_mask = contains_str(mode, "不带防焊");
    let is_inner = layer > 1 && layer < plate_layers;
    let mark = if is_diff {
        if is_coplanar {
            "W2_DiffCoatedCoplanarWaveguideWithLowerGnd1B"
        } else if is_inner {
            "W2_DiffOffsetStripline1B1A"
        } else {
            "W2_DiffEdgeCoupledCoatedMicrostrip1B"
        }
    } else if is_coplanar {
        if is_no_mask {
            "W2_SurfaceCoplanarWaveguideWithLowerGnd1B"
        } else {
            "W2_CoatedCoplanarWaveguideWithLowerGnd1B"
        }
    } else if is_inner {
        "W2_OffsetStripline1B1A"
    } else if is_no_mask {
        "W2_SurfaceMicrostrip1B"
    } else {
        "W2_CoatedMicrostrip1B"
    };
    String::from_str(mark)
}

fn calc_args(req: &ImpedanceReq, plate_layers: u32) -> (a: CalcArgs)
    ensures
        a == spec_calc_args(req@, plate_layers),
{
    proof {
        reveal_strlit("差分");
        reveal_strlit("共面");
        reveal_strlit("不带防焊");
    }
    let mode = req.mode.as_str();
    let is_diff = contains_str(mode, "差分");
    let is_coplanar = contains_str(mode, "共面");
    let is_no_mask = contains_str(mode, "不带防焊");
    CalcArgs {
        h1: 8126,
        er1: 4300,
        w1: if is_diff { 5200 } else { 8000 },
        w2: if is_diff { 4500 } else { 7500 },
        t1: if req.layer == 1 || req.layer == plate_layers { 1600 } else { 600 },
        c1: if is_no_mask { 0 } else { 1200 },
        c2: if is_no_mask { 0 } else { 600 },
        cer: if is_no_mask { 1000 } else { 3800 },
        zo: req.target_zo,
        calculate_mode: 3,
        link_computing_mode: false,
        w2_link_w1_incr: 500,
        zo_tol: req.tolerance,
        min_w2: 2,
        max_w2: 150,
        s1: if is_diff { Some(req.s1.unwrap_or(5500)) } else { None },
        c3: if is_diff { Some(if is_no_mask { 0u32 } else { 1200u32 }) } else { None },
        hz0: if is_diff { Some(108u32) } else { None },
        d1: if is_coplanar { Some(req.d1.unwrap_or(8000)) } else { None },
    }
}

/// The request that solves `req` on `template` for the session `uuid`.
pub fn calc_payload(template: &StackupTemplate, req: &ImpedanceReq, uuid: &str) -> (p: CalcPayload)
    ensures
        is_prefixed_uuid(p.access_id@, "gpui-"@),
        p.calc_mark@ == spec_calc_mark(req.mode@, req.layer, template.plate_layer_number),
        p.param_md5@ == "d41d8cd98f00b204e9800998ecf8427e"@,
        p.args == spec_calc_args(req@, template.plate_layer_number),
        p.uuid@ == uuid@,
{
    CalcPayload {
        access_id: new_session_id(),
        calc_mark: calc_mark(req.mode.as_str(), req.layer, template.plate_layer_number),
        param_md5: String::from_str("d41d8cd98f00b204e9800998ecf8427e"),
        args: calc_args(req, template.plate_layer_number),
        uuid: String::from_str(uuid),
    }
}

/// The result of `req` with the solver's answer: the requirement's own
/// fields, the returned widths and figures, not cached, not loading.
pub open spec fn spec_solved_result(
    req: ReqView,
    w1: Option<u32>,
    w2: Option<u32>,
    actual_zo: Option<u32>,
    delay: Option<u32>,
    er_eff: Option<u32>,
    calc_time_ms: u64,
) -> ResultView {
    ResultView {
        req_id: req.id,
        target_zo: req.target_zo,
        mode: req.mode,
        layer: req.layer,
        up_ref: req.up_ref,
        down_ref: req.down_ref,
        tolerance: req.tolerance,
        w1,
        w2,
        s1: req.s1,
        d1: req.d1,
        actual_zo,
        delay,
        er_eff,
        from_cache: false,
        calc_time_ms,
        is_loading: false,
    }
}

/// Builds the result of `req` from the solver's answer.
pub fn solved_result(
    req: &ImpedanceReq,
    w1: Option<u32>,
    w2: Option<u32>,
    actual_zo: Option<u32>,
    delay: Option<u32>,
    er_eff: Option<u32>,
    calc_time_ms: u64,
) -> (r: ImpedanceResult)
    ensures
        r@ == spec_solved_result(req@, w1, w2, actual_zo, delay, er_eff, calc_time_ms),
{
    ImpedanceResult {
        req_id: req.id.clone(),
        target_zo: req.target_zo,
        mode: req.mode.clone(),
        layer: req.layer,
        up_ref: req.up_ref,
        down_ref: req.down_ref,
        tolerance: req.tolerance,
        w1,
        w2,
        s1: req.s1,
        d1: req.d1,
        actual_zo,
        delay,
        er_eff,
        from_cache: false,
        calc_time_ms,
        is_loading: false,
    }
}

/// The estimate used when the solver gives no answer: the estimated width
/// `w1` (thousandths of a mil, as the caller rounded it to 0.01 mil), that
/// width less 0.5 mil, the target as the achieved impedance, a delay of
/// 5800 ps/m and an effective Er of 3.2.
pub fn fallback_result(req: &ImpedanceReq, w1: u32, calc_time_ms: u64) -> (r: ImpedanceResult)
    requires
        w1 >= 500,
    ensures
        r@ == spec_solved_result(
            req@,
            Some(w1),
            Some((w1 - 500) as u32),
            Some(req.target_zo),
            Some(5_800_000u32),
            Some(3200u32),
            calc_time_ms,
        ),
{
    solved_result(req, Some(w1), Some(w1 - 500), Some(req.target_zo), Some(5_800_000), Some(3200), calc_time_ms)
}

} // verus!
