//! The data the desk works on: board settings, impedance requirements,
//! stack-up templates and solver results.
//!
//! Every physical quantity is an exact count of thousandths of its unit:
//! impedance in milliohm, widths and spacings in thousandths of a mil,
//! thicknesses in micrometre (thousandths of a millimetre), dielectric
//! constants and tolerances in thousandths, delays in thousandths of a
//! ps/m.
use vstd::prelude::*;
use vstd::string::*;

verus! {

/// Board-level process settings.
pub struct BoardConfig {
    /// `"硬板"` (rigid FR-4) or `"HDI"`.
    pub plate_type: String,
    /// Number of copper layers.
    pub board_layer: u32,
    /// Finished board thickness, micrometre.
    pub finished_thickness: u32,
    /// Outer copper weight in ounces, as text (`"1"`, `"2"`).
    pub cuprum_thickness: String,
    /// Inner copper weight in ounces, as text (`"0.5"`, `"1"`, `"2"`).
    pub inner_copper_thickness: String,
    /// Display unit, `"mil"` or `"mm"`.
    pub unit: String,
}

/// One impedance target that every stack-up is solved for.
pub struct ImpedanceReq {
    pub id: String,
    /// Target impedance, milliohm.
    pub target_zo: u32,
    /// Line topology, such as `"单端阻抗（外层）"`.
    pub mode: String,
    /// Signal layer (1 is the top).
    pub layer: u32,
    pub up_ref: Option<u32>,
    pub down_ref: Option<u32>,
    /// Tolerance, thousandths.
    pub tolerance: u32,
    /// Starting trace width, thousandths of a mil.
    pub w1: u32,
    /// Differential pair spacing, thousandths of a mil.
    pub s1: Option<u32>,
    /// Coplanar ground gap, thousandths of a mil.
    pub d1: Option<u32>,
}

/// One layer of a stack-up.
pub struct BasicData {
    pub layer_name: Option<String>,
    pub material: String,
    pub material_name: Option<String>,
    /// Dielectric constant, thousandths.
    pub dielectric_constant: Option<u32>,
    /// Dielectric thickness, thousandths of a mil.
    pub dielectric_thick: Option<u32>,
    /// Conductor thickness, thousandths of a mil.
    pub top_conductor_thick: Option<u32>,
    pub material_type: Option<u32>,
}

/// A laminate construction offered by the fabricator.
pub struct StackupTemplate {
    pub code: String,
    pub display_name: String,
    pub is_common: bool,
    /// Board thickness, micrometre.
    pub plate_thickness: u32,
    pub plate_layer_number: u32,
    pub basic_data_list: Vec<BasicData>,
}

/// The solved (or pending) geometry for one requirement on one stack-up.
pub struct ImpedanceResult {
    pub req_id: String,
    pub target_zo: u32,
    pub mode: String,
    pub layer: u32,
    pub up_ref: Option<u32>,
    pub down_ref: Option<u32>,
    pub tolerance: u32,
    pub w1: Option<u32>,
    pub w2: Option<u32>,
    pub s1: Option<u32>,
    pub d1: Option<u32>,
    /// Impedance the solver reports for the returned geometry, milliohm.
    pub actual_zo: Option<u32>,
    /// Propagation delay, thousandths of a ps/m.
    pub delay: Option<u32>,
    /// Effective dielectric constant, thousandths.
    pub er_eff: Option<u32>,
    pub from_cache: bool,
    pub calc_time_ms: u64,
    pub is_loading: bool,
}

/// The text of an optional string.
pub open spec fn opt_text(o: Option<String>) -> Option<Seq<char>> {
    match o {
        None => None,
        Some(s) => Some(s@),
    }
}

/// Board settings as plain values.
pub struct BoardConfigView {
    pub plate_type: Seq<char>,
    pub board_layer: u32,
    pub finished_thickness: u32,
    pub cuprum_thickness: Seq<char>,
    pub inner_copper_thickness: Seq<char>,
    pub unit: Seq<char>,
}

impl View for BoardConfig {
    type V = BoardConfigView;

    open spec fn view(&self) -> BoardConfigView {
        BoardConfigView {
            plate_type: self.plate_type@,
            board_layer: self.board_layer,
            finished_thickness: self.finished_thickness,
            cuprum_thickness: self.cuprum_thickness@,
            inner_copper_thickness: self.inner_copper_thickness@,
            unit: self.unit@,
        }
    }
}

/// A requirement as plain values.
pub struct ReqView {
    pub id: Seq<char>,
    pub target_zo: u32,
    pub mode: Seq<char>,
    pub layer: u32,
    pub up_ref: Option<u32>,
    pub down_ref: Option<u32>,
    pub tolerance: u32,
    pub w1: u32,
    pub s1: Option<u32>,
    pub d1: Option<u32>,
}

impl View for ImpedanceReq {
    type V = ReqView;

    open spec fn view(&self) -> ReqView {
        ReqView {
            id: self.id@,
            target_zo: self.target_zo,
            mode: self.mode@,
            layer: self.layer,
            up_ref: self.up_ref,
            down_ref: self.down_ref,
            tolerance: self.tolerance,
            w1: self.w1,
            s1: self.s1,
            d1: self.d1,
        }
    }
}

/// A stack-up layer as plain values.
pub struct LayerView {
    pub layer_name: Option<Seq<char>>,
    pub material: Seq<char>,
    pub material_name: Option<Seq<char>>,
    pub dielectric_constant: Option<u32>,
    pub dielectric_thick: Option<u32>,
    pub top_conductor_thick: Option<u32>,
    pub material_type: Option<u32>,
}

impl View for BasicData {
    type V = LayerView;

    open spec fn view(&self) -> LayerView {
        LayerView {
            layer_name: opt_text(self.layer_name),
            material: self.material@,
            material_name: opt_text(self.material_name),
            dielectric_constant: self.dielectric_constant,
            dielectric_thick: self.dielectric_thick,
            top_conductor_thick: self.top_conductor_thick,
            material_type: self.material_type,
        }
    }
}

/// The views of a list of layers.
pub open spec fn layers_view(v: Seq<BasicData>) -> Seq<LayerView> {
    v.map_values(|b: BasicData| b@)
}

/// A stack-up template as plain values.
pub struct TemplateView {
    pub code: Seq<char>,
    pub display_name: Seq<char>,
    pub is_common: bool,
    pub plate_thickness: u32,
    pub plate_layer_number: u32,
    pub basic_data_list: Seq<LayerView>,
}

impl View for StackupTemplate {
    type V = TemplateView;

    open spec fn view(&self) -> TemplateView {
        TemplateView {
            code: self.code@,
            display_name: self.display_name@,
            is_common: self.is_common,
            plate_thickness: self.plate_thickness,
            plate_layer_number: self.plate_layer_number,
            basic_data_list: layers_view(self.basic_data_list@),
        }
    }
}

/// The views of a list of templates.
pub open spec fn templates_view(v: Seq<StackupTemplate>) -> Seq<TemplateView> {
    v.map_values(|t: StackupTemplate| t@)
}

/// The views of a list of requirements.
pub open spec fn reqs_view(v: Seq<ImpedanceReq>) -> Seq<ReqView> {
    v.map_values(|r: ImpedanceReq| r@)
}

/// A result as plain values.
pub struct ResultView {
    pub req_id: Seq<char>,
    pub target_zo: u32,
    pub mode: Seq<char>,
    pub layer: u32,
    pub up_ref: Option<u32>,
    pub down_ref: Option<u32>,
    pub tolerance: u32,
    pub w1: Option<u32>,
    pub w2: Option<u32>,
    pub s1: Option<u32>,
    pub d1: Option<u32>,
    pub actual_zo: Option<u32>,
    pub delay: Option<u32>,
    pub er_eff: Option<u32>,
    pub from_cache: bool,
    pub calc_time_ms: u64,
    pub is_loading: bool,
}

impl View for ImpedanceResult {
    type V = ResultView;

    open spec fn view(&self) -> ResultView {
        ResultView {
            req_id: self.req_id@,
            target_zo: self.target_zo,
            mode: self.mode@,
            layer: self.layer,
            up_ref: self.up_ref,
            down_ref: self.down_ref,
            tolerance: self.tolerance,
            w1: self.w1,
            w2: self.w2,
            s1: self.s1,
            d1: self.d1,
            actual_zo: self.actual_zo,
            delay: self.delay,
            er_eff: self.er_eff,
            from_cache: self.from_cache,
            calc_time_ms: self.calc_time_ms,
            is_loading: self.is_loading,
        }
    }
}

/// The views of a list of results.
pub open spec fn results_view(v: Seq<ImpedanceResult>) -> Seq<ResultView> {
    v.map_values(|r: ImpedanceResult| r@)
}

fn clone_opt_string(o: &Option<String>) -> (r: Option<String>)
    ensures
        r == *o,
        opt_text(r) == opt_text(*o),
{
    match o {
        None => None,
        Some(s) => Some(s.clone()),
    }
}

impl Clone for BoardConfig {
    fn clone(&self) -> (res: Self)
        ensures
            res == *self,
            res@ == self@,
    {
        BoardConfig {
            plate_type: self.plate_type.clone(),
            board_layer: self.board_layer,
            finished_thickness: self.finished_thickness,
            cuprum_thickness: self.cuprum_thickness.clone(),
            inner_copper_thickness: self.inner_copper_thickness.clone(),
            unit: self.unit.clone(),
        }
    }
}

impl Clone for ImpedanceReq {
    fn clone(&self) -> (res: Self)
        ensures
            res == *self,
            res@ == self@,
    {
        ImpedanceReq {
            id: self.id.clone(),
            target_zo: self.target_zo,
            mode: self.mode.clone(),
            layer: self.layer,
            up_ref: self.up_ref,
            down_ref: self.down_ref,
            tolerance: self.tolerance,
            w1: self.w1,
            s1: self.s1,
            d1: self.d1,
        }
    }
}

impl Clone for BasicData {
    fn clone(&self) -> (res: Self)
        ensures
            res == *self,
            res@ == self@,
    {
        BasicData {
            layer_name: clone_opt_string(&self.layer_name),
            material: self.material.clone(),
            material_name: clone_opt_string(&self.material_name),
            dielectric_constant: self.dielectric_constant,
            dielectric_thick: self.dielectric_thick,
            top_conductor_thick: self.top_conductor_thick,
            material_type: self.material_type,
        }
    }
}

impl Clone for StackupTemplate {
    fn clone(&self) -> (res: Self)
        ensures
            res@ == self@,
    {
        let list = self.basic_data_list.clone();
        assert(list@ =~= self.basic_data_list@);
        StackupTemplate {
            code: self.code.clone(),
            display_name: self.display_name.clone(),
            is_common: self.is_common,
            plate_thickness: self.plate_thickness,
            plate_layer_number: self.plate_layer_number,
            basic_data_list: list,
        }
    }
}

impl Clone for ImpedanceResult {
    fn clone(&self) -> (res: Self)
        ensures
            res == *self,
            res@ == self@,
    {
        ImpedanceResult {
            req_id: self.req_id.clone(),
            target_zo: self.target_zo,
            mode: self.mode.clone(),
            layer: self.layer,
            up_ref: self.up_ref,
            down_ref: self.down_ref,
            tolerance: self.tolerance,
            w1: self.w1,
            w2: self.w2,
            s1: self.s1,
            d1: self.d1,
            actual_zo: self.actual_zo,
            delay: self.delay,
            er_eff: self.er_eff,
            from_cache: self.from_cache,
            calc_time_ms: self.calc_time_ms,
            is_loading: self.is_loading,
        }
    }
}

/// The settings a fresh board starts from: rigid FR-4, 4 layers, 1.6 mm,
/// 1 oz outer and 0.5 oz inner copper, mil units.
pub open spec fn default_board() -> BoardConfigView {
    BoardConfigView {
        plate_type: "硬板"@,
        board_layer: 4,
        finished_thickness: 1600,
        cuprum_thickness: "1"@,
        inner_copper_thickness: "0.5"@,
        unit: "mil"@,
    }
}

impl Default for BoardConfig {
    fn default() -> (c: Self)
        ensures
            c@ == default_board(),
    {
        BoardConfig {
            plate_type: String::from_str("硬板"),
            board_layer: 4,
            finished_thickness: 1600,
            cuprum_thickness: String::from_str("1"),
            inner_copper_thickness: String::from_str("0.5"),
            unit: String::from_str("mil"),
        }
    }
}

/// The placeholder shown for a requirement whose result is not solved yet:
/// the requirement's own fields, no geometry, marked loading.
pub open spec fn pending_result(req: ReqView) -> ResultView {
    ResultView {
        req_id: req.id,
        target_zo: req.target_zo,
        mode: req.mode,
        layer: req.layer,
        up_ref: req.up_ref,
        down_ref: req.down_ref,
        tolerance: req.tolerance,
        w1: None,
        w2: None,
        s1: req.s1,
        d1: req.d1,
        actual_zo: None,
        delay: None,
        er_eff: None,
        from_cache: false,
        calc_time_ms: 0,
        is_loading: true,
    }
}

/// The result of `req` that is still to be solved.
pub fn pending_for(req: &ImpedanceReq) -> (r: ImpedanceResult)
    ensures
        r@ == pending_result(req@),
{
    ImpedanceResult {
        req_id: req.id.clone(),
        target_zo: req.target_zo,
        mode: req.mode.clone(),
        layer: req.layer,
        up_ref: req.up_ref,
        down_ref: req.down_ref,
        tolerance: req.tolerance,
        w1: None,
        w2: None,
        s1: req.s1,
        d1: req.d1,
        actual_zo: None,
        delay: None,
        er_eff: None,
        from_cache: false,
        calc_time_ms: 0,
        is_loading: true,
    }
}

} // verus!
