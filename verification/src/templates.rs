//! The fabricator's template list: the query for a board, and the rules
//! that turn the listed constructions into stack-up templates.
use vstd::prelude::*;
use vstd::string::*;

use crate::models::{
    opt_text, templates_view, BasicData, BoardConfig, BoardConfigView, LayerView, StackupTemplate, TemplateView,
};
use crate::text::{contains_str, has_substring};

verus! {

/// The list request for a board: first page of 100 templates with the
/// board's layer count and thickness, and the copper tag (`"1H"` for
/// 1 oz) that names a matching construction.
pub struct TemplateQuery {
    pub page_num: u32,
    pub page_size: u32,
    pub plate_layer_number: u32,
    /// Board thickness, micrometre.
    pub plate_thickness: u32,
    pub copper_tag: String,
}

/// `q` is the template query for a board with settings `c`.
pub open spec fn is_query_for(q: TemplateQuery, c: BoardConfigView) -> bool {
    &&& q.page_num == 1
    &&& q.page_size == 100
    &&& q.plate_layer_number == c.board_layer
    &&& q.plate_thickness == c.finished_thickness
    &&& q.copper_tag@ == c.cuprum_thickness + "H"@
}

/// The query for the board `config`.
pub fn template_query(config: &BoardConfig) -> (q: TemplateQuery)
    ensures
        is_query_for(q, config@),
{
    let mut tag = config.cuprum_thickness.clone();
    tag.append("H");
    TemplateQuery {
        page_num: 1,
        page_size: 100,
        plate_layer_number: config.board_layer,
        plate_thickness: config.finished_thickness,
        copper_tag: tag,
    }
}

/// One layer as the fabricator lists it; absent fields are `None`.
pub struct RawLayer {
    pub layer_name: Option<String>,
    pub material: Option<String>,
    pub material_name: Option<String>,
    pub dielectric_constant: Option<u32>,
    pub dielectric_thick: Option<u32>,
    pub top_conductor_thick: Option<u32>,
    pub material_type: Option<u64>,
}

/// One construction as the fabricator lists it; absent fields are `None`.
pub struct RawTemplate {
    pub appoint_name: Option<String>,
    pub construction_name: Option<String>,
    pub construction_code: Option<String>,
    pub default_flag: Option<i64>,
    /// Board thickness, micrometre.
    pub plate_thickness: Option<u32>,
    pub plate_layer_number: Option<u64>,
    pub basic_data_list: Option<Vec<RawLayer>>,
}

/// A listed layer as plain values.
pub struct RawLayerView {
    pub layer_name: Option<Seq<char>>,
    pub material: Option<Seq<char>>,
    pub material_name: Option<Seq<char>>,
    pub dielectric_constant: Option<u32>,
    pub dielectric_thick: Option<u32>,
    pub top_conductor_thick: Option<u32>,
    pub material_type: Option<u64>,
}

impl View for RawLayer {
    type V = RawLayerView;

    open spec fn view(&self) -> RawLayerView {
        RawLayerView {
            layer_name: opt_text(self.layer_name),
            material: opt_text(self.material),
            material_name: opt_text(self.material_name),
            dielectric_constant: self.dielectric_constant,
            dielectric_thick: self.dielectric_thick,
            top_conductor_thick: self.top_conductor_thick,
            material_type: self.material_type,
        }
    }
}

/// A listed construction as plain values.
pub struct RawTemplateView {
    pub appoint_name: Option<Seq<char>>,
    pub construction_name: Option<Seq<char>>,
    pub construction_code: Option<Seq<char>>,
    pub default_flag: Option<i64>,
    pub plate_thickness: Option<u32>,
    pub plate_layer_number: Option<u64>,
    pub basic_data_list: Option<Seq<RawLayerView>>,
}

impl View for RawTemplate {
    type V = RawTemplateView;

    open spec fn view(&self) -> RawTemplateView {
        RawTemplateView {
            appoint_name: opt_text(self.appoint_name),
            construction_name: opt_text(self.construction_name),
            construction_code: opt_text(self.construction_code),
            default_flag: self.default_flag,
            plate_thickness: self.plate_thickness,
            plate_layer_number: self.plate_layer_number,
            basic_data_list: match self.basic_data_list {
                None => None,
                Some(v) => Some(v@.map_values(|l: RawLayer| l@)),
            },
        }
    }
}

/// The views of a list of listed constructions.
pub open spec fn raws_view(v: Seq<RawTemplate>) -> Seq<RawTemplateView> {
    v.map_values(|r: RawTemplate| r@)
}

/// The name shown for a construction: its appointed name, else its
/// construction name, else `"未知叠构"`.
pub open spec fn raw_name(r: RawTemplateView) -> Seq<char> {
    match r.appoint_name {
        Some(n) => n,
        None => match r.construction_name {
            Some(n) => n,
            None => "未知叠构"@,
        },
    }
}

/// A construction is offered when its name carries the copper tag,
/// `"1H"` or `"7628"`.
pub open spec fn accepts(r: RawTemplateView, tag: Seq<char>) -> bool {
    let name = raw_name(r);
    has_substring(name, tag) || has_substring(name, "1H"@) || has_substring(name, "7628"@)
}

/// A construction is recommended when its name carries `"7628"` or
/// `"通用"`, or the fabricator flags it as default.
pub open spec fn raw_is_common(r: RawTemplateView) -> bool {
    let name = raw_name(r);
    has_substring(name, "7628"@) || has_substring(name, "通用"@) || r.default_flag == Some(1i64)
}

/// A listed layer as a stack-up layer; a missing material is `"介质"`.
pub open spec fn layer_from_raw(l: RawLayerView) -> LayerView {
    LayerView {
        layer_name: l.layer_name,
        material: match l.material {
            Some(m) => m,
            None => "介质"@,
        },
        material_name: l.material_name,
        dielectric_constant: l.dielectric_constant,
        dielectric_thick: l.dielectric_thick,
        top_conductor_thick: l.top_conductor_thick,
        material_type: match l.material_type {
            Some(n) => Some(n as u32),
            None => None,
        },
    }
}

/// A listed construction as a template: its code (else its name), its
/// name, whether recommended, thickness (else 1.6 mm), layer count
/// (else 4) and layers (else none).
pub open spec fn template_from_raw(r: RawTemplateView) -> TemplateView {
    TemplateView {
        code: match r.construction_code {
            Some(c) => c,
            None => raw_name(r),
        },
        display_name: raw_name(r),
        is_common: raw_is_common(r),
        plate_thickness: match r.plate_thickness {
            Some(t) => t,
            None => 1600,
        },
        plate_layer_number: match r.plate_layer_number {
            Some(n) => n as u32,
            None => 4,
        },
        basic_data_list: match r.basic_data_list {
            Some(ls) => ls.map_values(|l: RawLayerView| layer_from_raw(l)),
            None => seq![],
        },
    }
}

/// The offered constructions that are (`common`) or are not recommended,
/// in list order.
pub open spec fn offered(raws: Seq<RawTemplateView>, tag: Seq<char>, common: bool) -> Seq<RawTemplateView> {
    raws.filter(|r: RawTemplateView| accepts(r, tag) && raw_is_common(r) == common)
}

/// The template list: the offered constructions, recommended ones first,
/// each group in list order.
pub open spec fn spec_build_templates(raws: Seq<RawTemplateView>, tag: Seq<char>) -> Seq<TemplateView> {
    offered(raws, tag, true).map_values(|r: RawTemplateView| template_from_raw(r)) + offered(
        raws,
        tag,
        false,
    ).map_values(|r: RawTemplateView| template_from_raw(r))
}

fn clone_opt(o: &Option<String>) -> (r: Option<String>)
    ensures
        opt_text(r) == opt_text(*o),
{
    match o {
        None => None,
        Some(s) => Some(s.clone()),
    }
}

fn layer_of(l: &RawLayer) -> (b: BasicData)
    ensures
        b@ == layer_from_raw(l@),
{
    proof {
        reveal_strlit("介质");
    }
    BasicData {
        layer_name: clone_opt(&l.layer_name),
        material: match &l.material {
            Some(m) => m.clone(),
            None => String::from_str("介质"),
        },
        material_name: clone_opt(&l.material_name),
        dielectric_constant: l.dielectric_constant,
        dielectric_thick: l.dielectric_thick,
        top_conductor_thick: l.top_conductor_thick,
        material_type: match l.material_type {
            Some(n) => Some(n as u32),
            None => None,
        },
    }
}

fn name_of(r: &RawTemplate) -> (n: String)
    ensures
        n@ == raw_name(r@),
{
    match &r.appoint_name {
        Some(n) => n.clone(),
        None => match &r.construction_name {
            Some(n) => n.clone(),
            None => String::from_str("未知叠构"),
        },
    }
}

fn accepts_exec(r: &RawTemplate, tag: &str) -> (b: bool)
    ensures
        b == accepts(r@, tag@),
{
    proof {
        reveal_strlit("1H");
        reveal_strlit("7628");
    }
    let name = name_of(r);
    contains_str(name.as_str(), tag) || contains_str(name.as_str(), "1H") || contains_str(
        name.as_str(),
        "7628",
    )
}

fn is_common_exec(r: &RawTemplate) -> (b: bool)
    ensures
        b == raw_is_common(r@),
{
    proof {
        reveal_strlit("7628");
        reveal_strlit("通用");
    }
    let name = name_of(r);
    let flagged = match r.default_flag {
        Some(f) => f == 1,
        None => false,
    };
    contains_str(name.as_str(), "7628") || contains_str(name.as_str(), "通用") || flagged
}

fn template_of(r: &RawTemplate) -> (t: StackupTemplate)
    ensures
        t@ == template_from_raw(r@),
{
    let name = name_of(r);
    let code = match &r.construction_code {
        Some(c) => c.clone(),
        None => name.clone(),
    };
    let mut layers: Vec<BasicData> = Vec::new();
    match &r.basic_data_list {
        Some(ls) => {
            let mut i: usize = 0;
            while i < ls.len()
                invariant
                    i <= ls@.len(),
                    layers@.len() == i,
                    forall|j: int|
                        0 <= j < i ==> #[trigger] layers@[j]@ == layer_from_raw(ls@[j]@),
                decreases ls.len() - i,
            {
                let b = layer_of(&ls[i]);
                layers.push(b);
                i = i + 1;
            }
            proof {
                let lv = ls@.map_values(|l: RawLayer| l@);
                assert(crate::models::layers_view(layers@) =~= lv.map_values(
                    |l: RawLayerView| layer_from_raw(l),
                ));
            }
        },
        None => {
            assert(crate::models::layers_view(layers@) =~= seq![]);
        },
    }
    StackupTemplate {
        code,
        display_name: name,
        is_common: is_common_exec(r),
        plate_thickness: match r.plate_thickness {
            Some(t) => t,
            None => 1600,
        },
        plate_layer_number: match r.plate_layer_number {
            Some(n) => n as u32,
            None => 4,
        },
        basic_data_list: layers,
    }
}

fn append_offered(raws: &Vec<RawTemplate>, tag: &str, common: bool, out: &mut Vec<StackupTemplate>)
    ensures
        templates_view(final(out)@) == templates_view(old(out)@) + offered(
            raws_view(raws@),
            tag@,
            common,
        ).map_values(|r: RawTemplateView| template_from_raw(r)),
{
    let ghost pred = |r: RawTemplateView| accepts(r, tag@) && raw_is_common(r) == common;
    let ghost rv = raws_view(raws@);
    let ghost start = templates_view(out@);
    proof {
        reveal(Seq::filter);
        assert(rv.take(0) =~= Seq::<RawTemplateView>::empty());
        assert(rv.take(0).filter(pred) =~= Seq::<RawTemplateView>::empty());
        assert(templates_view(out@) =~= start + rv.take(0).filter(pred).map_values(
            |r: RawTemplateView| template_from_raw(r),
        ));
    }
    let mut i: usize = 0;
    while i < raws.len()
        invariant
            i <= raws@.len(),
            rv == raws_view(raws@),
            pred == (|r: RawTemplateView| accepts(r, tag@) && raw_is_common(r) == common),
            templates_view(out@) == start + rv.take(i as int).filter(pred).map_values(
                |r: RawTemplateView| template_from_raw(r),
            ),
        decreases raws.len() - i,
    {
        let r = &raws[i];
        let keep = accepts_exec(r, tag) && is_common_exec(r) == common;
        let ghost before = templates_view(out@);
        proof {
            assert(rv.take(i + 1) =~= rv.take(i as int).push(rv[i as int]));
            rv.take(i as int).lemma_filter_push(rv[i as int], pred);
            assert(rv[i as int] == r@);
        }
        if keep {
            let t = template_of(r);
            out.push(t);
            proof {
                let f = |x: RawTemplateView| template_from_raw(x);
                let old_f = rv.take(i as int).filter(pred);
                assert(old_f.push(rv[i as int]).map_values(f) =~= old_f.map_values(f).push(
                    f(rv[i as int]),
                ));
                assert(templates_view(out@) =~= before.push(t@));
            }
        }
        i = i + 1;
    }
    assert(rv.take(raws@.len() as int) =~= rv);
}

/// The template list made of the listed constructions `raws` for the
/// copper tag `copper_tag` (see `spec_build_templates`).
pub fn build_templates(raws: &Vec<RawTemplate>, copper_tag: &str) -> (ts: Vec<StackupTemplate>)
    ensures
        templates_view(ts@) == spec_build_templates(raws_view(raws@), copper_tag@),
{
    let mut out: Vec<StackupTemplate> = Vec::new();
    append_offered(raws, copper_tag, true, &mut out);
    append_offered(raws, copper_tag, false, &mut out);
    assert(templates_view(Seq::<StackupTemplate>::empty()) =~= Seq::<TemplateView>::empty());
    proof {
        let a = offered(raws_view(raws@), copper_tag@, true).map_values(
            |r: RawTemplateView| template_from_raw(r),
        );
        assert(Seq::<TemplateView>::empty() + a =~= a);
    }
    out
}

} // verus!
