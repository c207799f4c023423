//! The state of the desktop front end and every decision it takes on a
//! user action or a finished background task.
use vstd::prelude::*;
use vstd::string::*;

use crate::cache::{cache_key, ImpedanceCache};
use crate::ids::{is_prefixed_uuid, new_session_id};
use crate::models::{
    pending_for, pending_result, reqs_view, results_view, templates_view, BasicData, BoardConfig,
    BoardConfigView, ImpedanceReq, ImpedanceResult, LayerView, ReqView, ResultView,
    StackupTemplate, TemplateView,
};
use crate::templates::{is_query_for, template_query, TemplateQuery};
use crate::number::{decimal_number, milli_fraction, read_in_range, reads_in_range, floor_and_code};
use crate::text::str_eq;

verus! {

/// The set of texts held by a list of strings.
pub open spec fn text_set(v: Seq<String>) -> Set<Seq<char>> {
    Set::new(|k: Seq<char>| exists|i: int| 0 <= i < v.len() && (#[trigger] v[i])@ == k)
}

proof fn lemma_text_set_push(v: Seq<String>, x: String)
    ensures
        text_set(v.push(x)) == text_set(v).insert(x@),
{
    let w = v.push(x);
    assert forall|k: Seq<char>| text_set(w).contains(k) implies text_set(v).insert(x@).contains(k) by {
        let j = choose|j: int| 0 <= j < w.len() && (#[trigger] w[j])@ == k;
        if j < v.len() {
            assert(v[j] == w[j]);
        }
    }
    assert forall|k: Seq<char>| text_set(v).insert(x@).contains(k) implies text_set(w).contains(k) by {
        if k == x@ {
            assert(w[v.len() as int] == x);
        } else {
            let j = choose|j: int| 0 <= j < v.len() && (#[trigger] v[j])@ == k;
            assert(w[j] == v[j]);
        }
    }
    assert(text_set(w) =~= text_set(v).insert(x@));
}

proof fn lemma_text_set_empty(v: Seq<String>)
    requires
        v.len() == 0,
    ensures
        text_set(v) == Set::<Seq<char>>::empty(),
{
    assert(text_set(v) =~= Set::<Seq<char>>::empty());
}

/// The views of the per-template result rows.
pub open spec fn rows_view(v: Seq<(String, Vec<ImpedanceResult>)>) -> Seq<(Seq<char>, Seq<ResultView>)> {
    v.map_values(|e: (String, Vec<ImpedanceResult>)| (e.0@, results_view(e.1@)))
}

/// The desk's state as plain values.
pub struct DeskView {
    pub config: BoardConfigView,
    pub requirements: Seq<ReqView>,
    pub templates: Seq<TemplateView>,
    pub results: Seq<(Seq<char>, Seq<ResultView>)>,
    pub expanded_templates: Set<Seq<char>>,
    pub pinned_template: Option<Seq<char>>,
    pub computing_templates: Set<Seq<char>>,
    pub cache: Map<Seq<char>, ResultView>,
    pub cache_hits: nat,
    pub cache_misses: nat,
    /// How many times the cache was emptied; a job handed out under an
    /// earlier count stores nothing when it is taken back.
    pub cache_epoch: u64,
    pub uuid: Seq<char>,
    pub status_text: Seq<char>,
    pub is_calculating: bool,
    pub calc_strategy: Seq<char>,
    pub active_dropdown: Option<Seq<char>>,
    pub editing_zo: Option<(usize, Seq<char>)>,
}

/// The state of the desktop front end.
pub struct ImpedanceDesktopApp {
    pub config: BoardConfig,
    pub requirements: Vec<ImpedanceReq>,
    pub templates: Vec<StackupTemplate>,
    /// One row per shown template: its code and one result per requirement.
    pub results: Vec<(String, Vec<ImpedanceResult>)>,
    /// Codes whose material list is open (a list viewed as a set: vstd
    /// proves nothing of a `HashSet<String>`).
    pub expanded_templates: Vec<String>,
    pub pinned_template: Option<String>,
    /// Codes being solved in the background, viewed as a set like
    /// `expanded_templates`.
    pub computing_templates: Vec<String>,
    pub cache: ImpedanceCache,
    /// How many times the cache was emptied.
    pub cache_epoch: u64,
    pub uuid: String,
    pub status_text: String,
    pub is_calculating: bool,
    /// `"RECOMMENDED_ONLY"` or `"ALL"`.
    pub calc_strategy: String,
    pub active_dropdown: Option<String>,
    pub editing_zo: Option<(usize, String)>,
}

/// The view of an optional string-carrying editor state.
pub open spec fn editing_view(e: Option<(usize, String)>) -> Option<(usize, Seq<char>)> {
    match e {
        None => None,
        Some(p) => Some((p.0, p.1@)),
    }
}

impl View for ImpedanceDesktopApp {
    type V = DeskView;

    open spec fn view(&self) -> DeskView {
        DeskView {
            config: self.config@,
            requirements: reqs_view(self.requirements@),
            templates: templates_view(self.templates@),
            results: rows_view(self.results@),
            expanded_templates: text_set(self.expanded_templates@),
            pinned_template: crate::models::opt_text(self.pinned_template),
            computing_templates: text_set(self.computing_templates@),
            cache: self.cache.contents(),
            cache_hits: self.cache.hit_count(),
            cache_misses: self.cache.miss_count(),
            cache_epoch: self.cache_epoch,
            uuid: self.uuid@,
            status_text: self.status_text@,
            is_calculating: self.is_calculating,
            calc_strategy: self.calc_strategy@,
            active_dropdown: crate::models::opt_text(self.active_dropdown),
            editing_zo: editing_view(self.editing_zo),
        }
    }
}

// ---------------------------------------------------------------------
// Recalculation
// ---------------------------------------------------------------------

/// At most the first `n` elements of `s`.
pub open spec fn take_at_most<A>(s: Seq<A>, n: nat) -> Seq<A> {
    if s.len() <= n {
        s
    } else {
        s.take(n as int)
    }
}

/// The first two recommended templates.
pub open spec fn recommended(ts: Seq<TemplateView>) -> Seq<TemplateView> {
    take_at_most(ts.filter(|t: TemplateView| t.is_common), 2)
}

/// The codes of the templates shown under the strategy: the first two
/// recommended ones for `"RECOMMENDED_ONLY"`, all of them otherwise.
pub open spec fn target_codes(ts: Seq<TemplateView>, strategy: Seq<char>) -> Seq<Seq<char>> {
    if strategy == "RECOMMENDED_ONLY"@ {
        recommended(ts).map_values(|t: TemplateView| t.code)
    } else {
        ts.map_values(|t: TemplateView| t.code)
    }
}

/// The stored result for `req` on `code`, or its pending placeholder.
pub open spec fn lookup(cache: Map<Seq<char>, ResultView>, code: Seq<char>, req: ReqView) -> ResultView {
    let k = cache_key(code, req);
    if cache.dom().contains(k) {
        cache[k]
    } else {
        pending_result(req)
    }
}

/// The row of results for the template `code`.
pub open spec fn lookup_row(cache: Map<Seq<char>, ResultView>, code: Seq<char>, reqs: Seq<ReqView>) -> Seq<ResultView> {
    reqs.map_values(|r: ReqView| lookup(cache, code, r))
}

/// The rows for the templates `codes`.
pub open spec fn build_rows(cache: Map<Seq<char>, ResultView>, codes: Seq<Seq<char>>, reqs: Seq<ReqView>) -> Seq<(Seq<char>, Seq<ResultView>)> {
    codes.map_values(|c: Seq<char>| (c, lookup_row(cache, c, reqs)))
}

/// How many of the requirements have a stored result on `code`.
pub open spec fn row_hits(cache: Map<Seq<char>, ResultView>, code: Seq<char>, reqs: Seq<ReqView>) -> nat
    decreases reqs.len(),
{
    if reqs.len() == 0 {
        0
    } else {
        row_hits(cache, code, reqs.drop_last()) + if cache.dom().contains(cache_key(code, reqs.last())) {
            1nat
        } else {
            0nat
        }
    }
}

/// How many of the requirements have no stored result on `code`.
pub open spec fn row_misses(cache: Map<Seq<char>, ResultView>, code: Seq<char>, reqs: Seq<ReqView>) -> nat
    decreases reqs.len(),
{
    if reqs.len() == 0 {
        0
    } else {
        row_misses(cache, code, reqs.drop_last()) + if cache.dom().contains(cache_key(code, reqs.last())) {
            0nat
        } else {
            1nat
        }
    }
}

/// Stored results found over all `codes`.
pub open spec fn all_hits(cache: Map<Seq<char>, ResultView>, codes: Seq<Seq<char>>, reqs: Seq<ReqView>) -> nat
    decreases codes.len(),
{
    if codes.len() == 0 {
        0
    } else {
        all_hits(cache, codes.drop_last(), reqs) + row_hits(cache, codes.last(), reqs)
    }
}

/// Missing results over all `codes`.
pub open spec fn all_misses(cache: Map<Seq<char>, ResultView>, codes: Seq<Seq<char>>, reqs: Seq<ReqView>) -> nat
    decreases codes.len(),
{
    if codes.len() == 0 {
        0
    } else {
        all_misses(cache, codes.drop_last(), reqs) + row_misses(cache, codes.last(), reqs)
    }
}

/// `p` is the first row of `rows` for the template `code`.
pub open spec fn is_first_row(rows: Seq<(Seq<char>, Seq<ResultView>)>, code: Seq<char>, p: int) -> bool {
    0 <= p < rows.len() && rows[p].0 == code && forall|j: int| 0 <= j < p ==> rows[j].0 != code
}

/// The position of the first row for `code` (meaningful when there is one).
pub open spec fn first_row_index(rows: Seq<(Seq<char>, Seq<ResultView>)>, code: Seq<char>) -> int {
    choose|p: int| is_first_row(rows, code, p)
}

/// The rows with the first row of the pinned template moved to the front.
pub open spec fn pin_first(rows: Seq<(Seq<char>, Seq<ResultView>)>, pinned: Option<Seq<char>>) -> Seq<(Seq<char>, Seq<ResultView>)> {
    match pinned {
        None => rows,
        Some(code) => if exists|p: int| is_first_row(rows, code, p) {
            let p = first_row_index(rows, code);
            seq![rows[p]] + rows.remove(p)
        } else {
            rows
        },
    }
}

/// The status line once the shown rows are rebuilt.
pub open spec fn ready_status() -> Seq<char> {
    "视口动态加载与计算已就绪"@
}

/// Rebuilding the shown rows: with no templates nothing changes;
/// otherwise every shown template gets one row with, for each
/// requirement, the stored result or a pending placeholder (each lookup
/// counted as a hit or a miss), the pinned template's row first, the
/// calculation flag cleared and the status set to ready.
pub open spec fn recalc(v: DeskView) -> DeskView {
    if v.templates.len() == 0 {
        v
    } else {
        let codes = target_codes(v.templates, v.calc_strategy);
        DeskView {
            results: pin_first(build_rows(v.cache, codes, v.requirements), v.pinned_template),
            cache_hits: v.cache_hits + all_hits(v.cache, codes, v.requirements),
            cache_misses: v.cache_misses + all_misses(v.cache, codes, v.requirements),
            status_text: ready_status(),
            is_calculating: false,
            ..v
        }
    }
}

/// The number of lookups one rebuild can make.
pub open spec fn lookups(v: DeskView) -> nat {
    v.templates.len() * v.requirements.len()
}

/// The lookup counters can grow by `n` without overflow.
pub open spec fn counters_room(v: DeskView, n: nat) -> bool {
    v.cache_hits + v.cache_misses + n <= usize::MAX
}

proof fn lemma_row_counts(cache: Map<Seq<char>, ResultView>, code: Seq<char>, reqs: Seq<ReqView>)
    ensures
        row_hits(cache, code, reqs) + row_misses(cache, code, reqs) == reqs.len(),
    decreases reqs.len(),
{
    if reqs.len() > 0 {
        lemma_row_counts(cache, code, reqs.drop_last());
    }
}

/// Every lookup of a rebuild counts once, as a hit or as a miss.
pub proof fn lemma_all_counts(cache: Map<Seq<char>, ResultView>, codes: Seq<Seq<char>>, reqs: Seq<ReqView>)
    ensures
        all_hits(cache, codes, reqs) + all_misses(cache, codes, reqs) == codes.len() * reqs.len(),
    decreases codes.len(),
{
    if codes.len() > 0 {
        lemma_all_counts(cache, codes.drop_last(), reqs);
        lemma_row_counts(cache, codes.last(), reqs);
        let k = codes.len();
        let r = reqs.len();
        assert((k - 1) * r + r == k * r) by (nonlinear_arith);
    }
}

proof fn lemma_mul_le(a: nat, b: nat, c: nat)
    requires
        a <= b,
    ensures
        a * c <= b * c,
{
    assert(a * c <= b * c) by (nonlinear_arith)
        requires
            a <= b,
    ;
}

proof fn lemma_target_count(ts: Seq<TemplateView>, strategy: Seq<char>)
    ensures
        target_codes(ts, strategy).len() <= ts.len(),
{
    ts.lemma_filter_len(|t: TemplateView| t.is_common);
}

/// A rebuild changes only the rows, the counters, the status and the
/// calculation flag, and adds at most `lookups(v)` to the counters.
pub proof fn lemma_recalc_frame(v: DeskView)
    ensures
        recalc(v).cache_hits + recalc(v).cache_misses <= v.cache_hits + v.cache_misses + lookups(v),
        recalc(v).cache_hits >= v.cache_hits,
        recalc(v).cache_misses >= v.cache_misses,
        recalc(v).config == v.config,
        recalc(v).requirements == v.requirements,
        recalc(v).templates == v.templates,
        recalc(v).expanded_templates == v.expanded_templates,
        recalc(v).pinned_template == v.pinned_template,
        recalc(v).computing_templates == v.computing_templates,
        recalc(v).cache == v.cache,
        recalc(v).uuid == v.uuid,
        recalc(v).calc_strategy == v.calc_strategy,
        recalc(v).active_dropdown == v.active_dropdown,
        recalc(v).editing_zo == v.editing_zo,
{
    if v.templates.len() > 0 {
        let codes = target_codes(v.templates, v.calc_strategy);
        lemma_all_counts(v.cache, codes, v.requirements);
        lemma_target_count(v.templates, v.calc_strategy);
        lemma_mul_le(codes.len(), v.templates.len(), v.requirements.len());
    }
}

/// The codes of a list of strings as texts.
pub open spec fn texts(v: Seq<String>) -> Seq<Seq<char>> {
    v.map_values(|s: String| s@)
}

fn common_codes(ts: &Vec<StackupTemplate>) -> (codes: Vec<String>)
    ensures
        texts(codes@) == recommended(templates_view(ts@)).map_values(|t: TemplateView| t.code),
{
    let ghost tv = templates_view(ts@);
    let ghost pred = |t: TemplateView| t.is_common;
    let mut codes: Vec<String> = Vec::new();
    let mut i: usize = 0;
    proof {
        reveal(Seq::filter);
        assert(tv.take(0) =~= Seq::<TemplateView>::empty());
        assert(tv.take(0).filter(pred) =~= Seq::<TemplateView>::empty());
        assert(texts(codes@) =~= take_at_most(tv.take(0).filter(pred), 2).map_values(
            |t: TemplateView| t.code,
        ));
    }
    while i < ts.len()
        invariant
            i <= ts@.len(),
            tv == templates_view(ts@),
            pred == (|t: TemplateView| t.is_common),
            texts(codes@) == take_at_most(tv.take(i as int).filter(pred), 2).map_values(
                |t: TemplateView| t.code,
            ),
        decreases ts.len() - i,
    {
        proof {
            assert(tv.take(i + 1) =~= tv.take(i as int).push(tv[i as int]));
            tv.take(i as int).lemma_filter_push(tv[i as int], pred);
        }
        let ghost before = tv.take(i as int).filter(pred);
        let ghost old_codes = codes@;
        assert(texts(codes@).len() == codes@.len());
        if ts[i].is_common && codes.len() < 2 {
            let c = ts[i].code.clone();
            assert(c@ == tv[i as int].code);
            codes.push(c);
            proof {
                assert(before.len() < 2);
                assert(take_at_most(before, 2) == before);
                assert(texts(codes@) =~= texts(old_codes).push(c@));
                let after = before.push(tv[i as int]);
                assert(take_at_most(after, 2) =~= after);
                assert(texts(codes@) =~= after.map_values(|t: TemplateView| t.code));
            }
        } else {
            proof {
                if ts[i as int].is_common {
                    assert(codes@.len() >= 2);
                    assert(texts(codes@).len() == codes@.len());
                    assert(before.len() >= 2);
                    let after = before.push(tv[i as int]);
                    assert(take_at_most(after, 2) =~= take_at_most(before, 2));
                }
            }
        }
        i = i + 1;
    }
    assert(tv.take(ts@.len() as int) =~= tv);
    codes
}

fn all_codes(ts: &Vec<StackupTemplate>) -> (codes: Vec<String>)
    ensures
        texts(codes@) == templates_view(ts@).map_values(|t: TemplateView| t.code),
{
    let mut codes: Vec<String> = Vec::new();
    let mut i: usize = 0;
    while i < ts.len()
        invariant
            i <= ts@.len(),
            codes@.len() == i,
            forall|j: int| 0 <= j < i ==> (#[trigger] codes@[j])@ == ts@[j].code@,
        decreases ts.len() - i,
    {
        codes.push(ts[i].code.clone());
        i = i + 1;
    }
    assert(texts(codes@) =~= templates_view(ts@).map_values(|t: TemplateView| t.code));
    codes
}

proof fn lemma_lookup_row_step(cache: Map<Seq<char>, ResultView>, code: Seq<char>, rv: Seq<ReqView>, j: int)
    requires
        0 <= j < rv.len(),
    ensures
        lookup_row(cache, code, rv.take(j + 1)) == lookup_row(cache, code, rv.take(j)).push(
            lookup(cache, code, rv[j]),
        ),
        row_hits(cache, code, rv.take(j + 1)) == row_hits(cache, code, rv.take(j)) + if cache.dom().contains(cache_key(code, rv[j])) {
            1nat
        } else {
            0nat
        },
        row_misses(cache, code, rv.take(j + 1)) == row_misses(cache, code, rv.take(j)) + if cache.dom().contains(cache_key(code, rv[j])) {
            0nat
        } else {
            1nat
        },
{
    assert(rv.take(j + 1).drop_last() =~= rv.take(j));
    assert(lookup_row(cache, code, rv.take(j + 1)) =~= lookup_row(cache, code, rv.take(j)).push(
        lookup(cache, code, rv[j]),
    ));
}

proof fn lemma_results_view_push(row: Seq<ImpedanceResult>, x: ImpedanceResult)
    ensures
        results_view(row.push(x)) == results_view(row).push(x@),
{
    assert(results_view(row.push(x)) =~= results_view(row).push(x@));
}

fn build_row(cache: &mut ImpedanceCache, code: &String, reqs: &Vec<ImpedanceReq>) -> (row: Vec<ImpedanceResult>)
    requires
        old(cache).hit_count() + old(cache).miss_count() + reqs@.len() <= usize::MAX,
    ensures
        final(cache).contents() == old(cache).contents(),
        results_view(row@) == lookup_row(old(cache).contents(), code@, reqs_view(reqs@)),
        final(cache).hit_count() == old(cache).hit_count() + row_hits(
            old(cache).contents(),
            code@,
            reqs_view(reqs@),
        ),
        final(cache).miss_count() == old(cache).miss_count() + row_misses(
            old(cache).contents(),
            code@,
            reqs_view(reqs@),
        ),
{
    let ghost c0 = cache.contents();
    let ghost h0 = cache.hit_count();
    let ghost m0 = cache.miss_count();
    let ghost rv = reqs_view(reqs@);
    let mut row: Vec<ImpedanceResult> = Vec::new();
    let mut j: usize = 0;
    assert(rv.take(0) =~= Seq::<ReqView>::empty());
    assert(results_view(row@) =~= Seq::<ResultView>::empty());
    while j < reqs.len()
        invariant
            j <= reqs@.len(),
            rv == reqs_view(reqs@),
            cache.contents() == c0,
            h0 + m0 + reqs@.len() <= usize::MAX,
            results_view(row@) == lookup_row(c0, code@, rv.take(j as int)),
            cache.hit_count() == h0 + row_hits(c0, code@, rv.take(j as int)),
            cache.miss_count() == m0 + row_misses(c0, code@, rv.take(j as int)),
        decreases reqs.len() - j,
    {
        let req = &reqs[j];
        let key = ImpedanceCache::generate_key(code.as_str(), req);
        proof {
            assert(rv[j as int] == req@);
            lemma_lookup_row_step(c0, code@, rv, j as int);
            lemma_row_counts(c0, code@, rv.take(j as int));
            assert(rv.take(j as int).len() == j);
        }
        let got = cache.get(key.as_str());
        let item = match got {
            Some(c) => c,
            None => pending_for(req),
        };
        assert(item@ == lookup(c0, code@, req@));
        proof {
            lemma_results_view_push(row@, item);
        }
        row.push(item);
        j = j + 1;
    }
    assert(rv.take(reqs@.len() as int) =~= rv);
    row
}

proof fn lemma_pin_first_found(rows: Seq<(Seq<char>, Seq<ResultView>)>, code: Seq<char>, p: int)
    requires
        is_first_row(rows, code, p),
    ensures
        pin_first(rows, Some(code)) == seq![rows[p]] + rows.remove(p),
{
    assert(exists|x: int| is_first_row(rows, code, x));
    let q = first_row_index(rows, code);
    assert(is_first_row(rows, code, q));
    if q < p {
        assert(rows[q].0 == code);
    } else if q > p {
        assert(rows[p].0 == code);
    }
    assert(q == p);
    assert(pin_first(rows, Some(code)) == seq![rows[q]] + rows.remove(q));
}

fn pin_rows(rows: &mut Vec<(String, Vec<ImpedanceResult>)>, pinned: &Option<String>)
    ensures
        rows_view(final(rows)@) == pin_first(rows_view(old(rows)@), crate::models::opt_text(*pinned)),
{
    let ghost rv = rows_view(rows@);
    if let Some(code) = pinned {
        let mut p: usize = 0;
        while p < rows.len() && rows[p].0 != *code
            invariant
                p <= rows@.len(),
                rv == rows_view(rows@),
                forall|j: int| 0 <= j < p ==> rv[j].0 != code@,
            decreases rows.len() - p,
        {
            p = p + 1;
        }
        if p < rows.len() {
            proof {
                assert(is_first_row(rv, code@, p as int));
                assert forall|q: int| is_first_row(rv, code@, q) implies q == p by {
                    if q < p {
                    } else if q > p {
                        assert(rv[p as int].0 == code@);
                    }
                }
            }
            let item = rows.remove(p);
            rows.insert(0, item);
            assert(rows_view(rows@) =~= seq![rv[p as int]] + rv.remove(p as int));
            proof {
                lemma_pin_first_found(rv, code@, p as int);
            }
        } else {
            assert(!exists|q: int| is_first_row(rv, code@, q));
            assert(pin_first(rv, Some(code@)) == rv);
        }
        assert(rows_view(rows@) == pin_first(rv, Some(code@)));
    } else {
        assert(rows_view(rows@) == rv);
    }
}

impl ImpedanceDesktopApp {
    /// Rebuilds the shown rows (see `recalc`).
    pub fn trigger_calc(&mut self)
        requires
            counters_room(old(self)@, lookups(old(self)@)),
        ensures
            final(self)@ == recalc(old(self)@),
    {
        proof {
            reveal_strlit("RECOMMENDED_ONLY");
            reveal_strlit("视口动态加载与计算已就绪");
        }
        if self.templates.len() == 0 {
            return;
        }
        let ghost v = self@;
        self.is_calculating = false;
        self.status_text = String::from_str("视口动态加载与计算已就绪");
        let codes = if str_eq(self.calc_strategy.as_str(), "RECOMMENDED_ONLY") {
            common_codes(&self.templates)
        } else {
            all_codes(&self.templates)
        };
        let ghost cv = texts(codes@);
        assert(cv == target_codes(v.templates, v.calc_strategy));
        proof {
            lemma_all_counts(v.cache, cv, v.requirements);
            lemma_target_count(v.templates, v.calc_strategy);
            lemma_mul_le(cv.len(), v.templates.len(), v.requirements.len());
        }
        let mut rows: Vec<(String, Vec<ImpedanceResult>)> = Vec::new();
        let mut cache = ImpedanceCache::new();
        std::mem::swap(&mut cache, &mut self.cache);
        let mut i: usize = 0;
        assert(cv.take(0) =~= Seq::<Seq<char>>::empty());
        while i < codes.len()
            invariant
                i <= codes@.len(),
                cv == texts(codes@),
                v.cache_hits + v.cache_misses + cv.len() * v.requirements.len() <= usize::MAX,
                all_hits(v.cache, cv, v.requirements) + all_misses(v.cache, cv, v.requirements)
                    == cv.len() * v.requirements.len(),
                v.requirements == reqs_view(self.requirements@),
                cache.contents() == v.cache,
                cache.hit_count() == v.cache_hits + all_hits(v.cache, cv.take(i as int), v.requirements),
                cache.miss_count() == v.cache_misses + all_misses(v.cache, cv.take(i as int), v.requirements),
                rows@.len() == i,
                rows_view(rows@) == build_rows(v.cache, cv.take(i as int), v.requirements),
            decreases codes.len() - i,
        {
            proof {
                assert(cv.take(i + 1).drop_last() =~= cv.take(i as int));
                assert(cv.take(i + 1).last() == codes@[i as int]@);
                lemma_all_counts(v.cache, cv.take(i as int), v.requirements);
                lemma_all_counts(v.cache, cv.take(i + 1), v.requirements);
                lemma_prefix_counts(v.cache, cv, v.requirements, i + 1);
                lemma_row_counts(v.cache, codes@[i as int]@, v.requirements);
            }
            let row = build_row(&mut cache, &codes[i], &self.requirements);
            let ghost before = rows_view(rows@);
            let c = codes[i].clone();
            assert(c@ == cv.take(i + 1)[i as int]);
            let ghost rowv = results_view(row@);
            assert(rowv == lookup_row(v.cache, cv.take(i + 1)[i as int], v.requirements));
            rows.push((c, row));
            proof {
                assert(rows_view(rows@) =~= before.push((c@, rowv)));
                assert(build_rows(v.cache, cv.take(i + 1), v.requirements) =~= build_rows(v.cache, cv.take(i as int), v.requirements).push((c@, rowv)));
                assert(rows_view(rows@) =~= build_rows(v.cache, cv.take(i + 1), v.requirements));
            }
            i = i + 1;
        }
        assert(cv.take(codes@.len() as int) =~= cv);
        self.cache = cache;
        pin_rows(&mut rows, &self.pinned_template);
        self.results = rows;
        assert(self@.expanded_templates =~= v.expanded_templates);
        assert(self@.computing_templates =~= v.computing_templates);
    }
}

proof fn lemma_prefix_counts(cache: Map<Seq<char>, ResultView>, codes: Seq<Seq<char>>, reqs: Seq<ReqView>, k: int)
    requires
        0 <= k <= codes.len(),
    ensures
        all_hits(cache, codes.take(k), reqs) + all_misses(cache, codes.take(k), reqs)
            <= all_hits(cache, codes, reqs) + all_misses(cache, codes, reqs),
    decreases codes.len() - k,
{
    if k < codes.len() {
        lemma_prefix_counts(cache, codes, reqs, k + 1);
        assert(codes.take(k + 1).drop_last() =~= codes.take(k));
    } else {
        assert(codes.take(k) =~= codes);
    }
}

// ---------------------------------------------------------------------
// Start-up
// ---------------------------------------------------------------------

/// A copper layer of the built-in stack-up.
pub open spec fn copper_layer(name: Seq<char>, weight: Seq<char>, thick: u32) -> LayerView {
    LayerView {
        layer_name: Some(name),
        material: "铜箔"@,
        material_name: Some(weight),
        dielectric_constant: None,
        dielectric_thick: None,
        top_conductor_thick: Some(thick),
        material_type: Some(1),
    }
}

/// A dielectric layer of the built-in stack-up.
pub open spec fn dielectric_layer(material: Seq<char>, name: Seq<char>, er: u32, thick: u32, kind: u32) -> LayerView {
    LayerView {
        layer_name: None,
        material,
        material_name: Some(name),
        dielectric_constant: Some(er),
        dielectric_thick: Some(thick),
        top_conductor_thick: None,
        material_type: Some(kind),
    }
}

/// The two built-in 4-layer 1.6 mm recommended stack-ups shown before the
/// fabricator's list arrives; the first with its seven layers.
pub open spec fn default_templates_view() -> Seq<TemplateView> {
    seq![
        TemplateView {
            code: "JLC041611-7628B"@,
            display_name: "JLC041611-7628B"@,
            is_common: true,
            plate_thickness: 1600,
            plate_layer_number: 4,
            basic_data_list: seq![
                copper_layer("L1"@, "1oz"@, 1400),
                dielectric_layer("半固化片"@, "7628*1"@, 4300, 7870, 2),
                copper_layer("L2"@, "0.5oz"@, 600),
                dielectric_layer("芯板"@, "芯板"@, 4500, 41340, 3),
                copper_layer("L3"@, "0.5oz"@, 600),
                dielectric_layer("半固化片"@, "7628*1"@, 4300, 7870, 2),
                copper_layer("L4"@, "1oz"@, 1400),
            ],
        },
        TemplateView {
            code: "JLC04161H-7628A"@,
            display_name: "JLC04161H-7628A"@,
            is_common: true,
            plate_thickness: 1600,
            plate_layer_number: 4,
            basic_data_list: seq![],
        },
    ]
}

fn copper(name: &str, weight: &str, thick: u32) -> (b: BasicData)
    ensures
        b@ == copper_layer(name@, weight@, thick),
{
    BasicData {
        layer_name: Some(String::from_str(name)),
        material: String::from_str("铜箔"),
        material_name: Some(String::from_str(weight)),
        dielectric_constant: None,
        dielectric_thick: None,
        top_conductor_thick: Some(thick),
        material_type: Some(1),
    }
}

fn dielectric(material: &str, name: &str, er: u32, thick: u32, kind: u32) -> (b: BasicData)
    ensures
        b@ == dielectric_layer(material@, name@, er, thick, kind),
{
    BasicData {
        layer_name: None,
        material: String::from_str(material),
        material_name: Some(String::from_str(name)),
        dielectric_constant: Some(er),
        dielectric_thick: Some(thick),
        top_conductor_thick: None,
        material_type: Some(kind),
    }
}

/// The built-in stack-ups (see `default_templates_view`).
pub fn default_templates() -> (ts: Vec<StackupTemplate>)
    ensures
        templates_view(ts@) == default_templates_view(),
{
    let mut layers: Vec<BasicData> = Vec::new();
    layers.push(copper("L1", "1oz", 1400));
    layers.push(dielectric("半固化片", "7628*1", 4300, 7870, 2));
    layers.push(copper("L2", "0.5oz", 600));
    layers.push(dielectric("芯板", "芯板", 4500, 41340, 3));
    layers.push(copper("L3", "0.5oz", 600));
    layers.push(dielectric("半固化片", "7628*1", 4300, 7870, 2));
    layers.push(copper("L4", "1oz", 1400));
    let first = StackupTemplate {
        code: String::from_str("JLC041611-7628B"),
        display_name: String::from_str("JLC041611-7628B"),
        is_common: true,
        plate_thickness: 1600,
        plate_layer_number: 4,
        basic_data_list: layers,
    };
    let second = StackupTemplate {
        code: String::from_str("JLC04161H-7628A"),
        display_name: String::from_str("JLC04161H-7628A"),
        is_common: true,
        plate_thickness: 1600,
        plate_layer_number: 4,
        basic_data_list: Vec::new(),
    };
    let mut ts: Vec<StackupTemplate> = Vec::new();
    ts.push(first);
    ts.push(second);
    assert(crate::models::layers_view(ts@[0].basic_data_list@) =~= default_templates_view()[0].basic_data_list);
    assert(crate::models::layers_view(ts@[1].basic_data_list@) =~= default_templates_view()[1].basic_data_list);
    assert(templates_view(ts@) =~= default_templates_view());
    ts
}

/// A requirement as the desk creates it.
pub open spec fn make_req(
    id: Seq<char>,
    target_zo: u32,
    mode: Seq<char>,
    layer: u32,
    up_ref: Option<u32>,
    down_ref: Option<u32>,
    w1: u32,
    s1: Option<u32>,
) -> ReqView {
    ReqView { id, target_zo, mode, layer, up_ref, down_ref, tolerance: 500, w1, s1, d1: None }
}

/// A 50 ohm single-ended line on the top layer over L2.
pub open spec fn single_50_top(id: Seq<char>) -> ReqView {
    make_req(id, 50_000, "单端阻抗（外层）"@, 1, None, Some(2), 8000, None)
}

/// A 90 ohm differential pair on the top layer over L2.
pub open spec fn diff_90_top(id: Seq<char>) -> ReqView {
    make_req(id, 90_000, "差分阻抗（外层）"@, 1, None, Some(2), 4500, Some(5500))
}

/// A 100 ohm differential pair on the top layer over L2.
pub open spec fn diff_100_top(id: Seq<char>) -> ReqView {
    make_req(id, 100_000, "差分阻抗（外层）"@, 1, None, Some(2), 4000, Some(6000))
}

/// A 50 ohm single-ended line on the bottom layer `bottom`.
pub open spec fn single_50_bottom(id: Seq<char>, bottom: u32) -> ReqView {
    make_req(id, 50_000, "单端阻抗（外层）"@, bottom, Some((bottom - 1) as u32), None, 8000, None)
}

fn new_req(
    id: String,
    target_zo: u32,
    mode: &str,
    layer: u32,
    up_ref: Option<u32>,
    down_ref: Option<u32>,
    w1: u32,
    s1: Option<u32>,
) -> (r: ImpedanceReq)
    ensures
        r@ == make_req(id@, target_zo, mode@, layer, up_ref, down_ref, w1, s1),
{
    ImpedanceReq {
        id,
        target_zo,
        mode: String::from_str(mode),
        layer,
        up_ref,
        down_ref,
        tolerance: 500,
        w1,
        s1,
        d1: None,
    }
}

/// The result prepared for a 50 ohm top-layer line on the built-in
/// stack-ups: 13.57/13.07 mil for 50.15 ohm, 6100 ps/m, Er 3.34.
pub open spec fn warm_single_50() -> ResultView {
    ResultView {
        req_id: "req_1"@,
        target_zo: 50_000,
        mode: "单端阻抗（外层）"@,
        layer: 1,
        up_ref: None,
        down_ref: Some(2),
        tolerance: 500,
        w1: Some(13_570),
        w2: Some(13_070),
        s1: None,
        d1: None,
        actual_zo: Some(50_150),
        delay: Some(6_100_000),
        er_eff: Some(3340),
        from_cache: true,
        calc_time_ms: 0,
        is_loading: false,
    }
}

/// The result prepared for a 90 ohm top-layer pair on the built-in
/// stack-ups: 8.98/8.48 mil for 89.68 ohm, 5738 ps/m, Er 2.96.
pub open spec fn warm_diff_90() -> ResultView {
    ResultView {
        req_id: "req_2"@,
        target_zo: 90_000,
        mode: "差分阻抗（外层）"@,
        layer: 1,
        up_ref: None,
        down_ref: Some(2),
        tolerance: 500,
        w1: Some(8980),
        w2: Some(8480),
        s1: Some(5500),
        d1: None,
        actual_zo: Some(89_680),
        delay: Some(5_738_000),
        er_eff: Some(2960),
        from_cache: true,
        calc_time_ms: 0,
        is_loading: false,
    }
}

/// The results stored at start-up: both default requirements on both
/// built-in stack-ups.
pub open spec fn warm_cache() -> Map<Seq<char>, ResultView> {
    Map::<Seq<char>, ResultView>::empty().insert(
        cache_key("JLC041611-7628B"@, single_50_top("req_1"@)),
        warm_single_50(),
    ).insert(cache_key("JLC041611-7628B"@, diff_90_top("req_2"@)), warm_diff_90()).insert(
        cache_key("JLC04161H-7628A"@, single_50_top("req_1"@)),
        warm_single_50(),
    ).insert(cache_key("JLC04161H-7628A"@, diff_90_top("req_2"@)), warm_diff_90())
}

/// The desk before its first rebuild, for the session `uuid`.
pub open spec fn initial_view(uuid: Seq<char>) -> DeskView {
    DeskView {
        config: crate::models::default_board(),
        requirements: seq![single_50_top("req_1"@), diff_90_top("req_2"@)],
        templates: default_templates_view(),
        results: seq![],
        expanded_templates: Set::empty(),
        pinned_template: None,
        computing_templates: Set::empty(),
        cache: warm_cache(),
        cache_hits: 0,
        cache_misses: 0,
        cache_epoch: 0,
        uuid,
        status_text: "准备就绪"@,
        is_calculating: false,
        calc_strategy: "RECOMMENDED_ONLY"@,
        active_dropdown: None,
        editing_zo: None,
    }
}

/// The status while the fabricator's list is being fetched.
pub open spec fn begin_loading(v: DeskView) -> DeskView {
    DeskView { status_text: "正在同步官方标准层压结构..."@, is_calculating: true, ..v }
}

fn warm_result(
    req_id: &str,
    target_zo: u32,
    mode: &str,
    w1: u32,
    w2: u32,
    s1: Option<u32>,
    actual_zo: u32,
    delay: u32,
    er_eff: u32,
) -> (r: ImpedanceResult)
    ensures
        r@ == (ResultView {
            req_id: req_id@,
            target_zo,
            mode: mode@,
            layer: 1,
            up_ref: None,
            down_ref: Some(2),
            tolerance: 500,
            w1: Some(w1),
            w2: Some(w2),
            s1,
            d1: None,
            actual_zo: Some(actual_zo),
            delay: Some(delay),
            er_eff: Some(er_eff),
            from_cache: true,
            calc_time_ms: 0,
            is_loading: false,
        }),
{
    ImpedanceResult {
        req_id: String::from_str(req_id),
        target_zo,
        mode: String::from_str(mode),
        layer: 1,
        up_ref: None,
        down_ref: Some(2),
        tolerance: 500,
        w1: Some(w1),
        w2: Some(w2),
        s1,
        d1: None,
        actual_zo: Some(actual_zo),
        delay: Some(delay),
        er_eff: Some(er_eff),
        from_cache: true,
        calc_time_ms: 0,
        is_loading: false,
    }
}

impl ImpedanceDesktopApp {
    /// The desk at start-up: default board, the two default requirements,
    /// the built-in stack-ups, the prepared results, a fresh session id;
    /// the rows rebuilt and the fabricator's list requested (the returned
    /// query).
    pub fn new() -> (r: (Self, TemplateQuery))
        ensures
            is_prefixed_uuid(r.0@.uuid, "gpui-"@),
            r.0@ == begin_loading(recalc(initial_view(r.0@.uuid))),
            is_query_for(r.1, r.0@.config),
    {
        let mut requirements: Vec<ImpedanceReq> = Vec::new();
        requirements.push(
            new_req(String::from_str("req_1"), 50_000, "单端阻抗（外层）", 1, None, Some(2), 8000, None),
        );
        requirements.push(
            new_req(String::from_str("req_2"), 90_000, "差分阻抗（外层）", 1, None, Some(2), 4500, Some(5500)),
        );
        let mut cache = ImpedanceCache::new();
        let k1 = ImpedanceCache::generate_key("JLC041611-7628B", &requirements[0]);
        cache.set(k1, warm_result("req_1", 50_000, "单端阻抗（外层）", 13_570, 13_070, None, 50_150, 6_100_000, 3340));
        let k2 = ImpedanceCache::generate_key("JLC041611-7628B", &requirements[1]);
        cache.set(k2, warm_result("req_2", 90_000, "差分阻抗（外层）", 8980, 8480, Some(5500), 89_680, 5_738_000, 2960));
        let k3 = ImpedanceCache::generate_key("JLC04161H-7628A", &requirements[0]);
        cache.set(k3, warm_result("req_1", 50_000, "单端阻抗（外层）", 13_570, 13_070, None, 50_150, 6_100_000, 3340));
        let k4 = ImpedanceCache::generate_key("JLC04161H-7628A", &requirements[1]);
        cache.set(k4, warm_result("req_2", 90_000, "差分阻抗（外层）", 8980, 8480, Some(5500), 89_680, 5_738_000, 2960));
        let mut app = ImpedanceDesktopApp {
            config: BoardConfig::default(),
            requirements,
            templates: default_templates(),
            results: Vec::new(),
            expanded_templates: Vec::new(),
            pinned_template: None,
            computing_templates: Vec::new(),
            cache,
            cache_epoch: 0,
            uuid: new_session_id(),
            status_text: String::from_str("准备就绪"),
            is_calculating: false,
            calc_strategy: String::from_str("RECOMMENDED_ONLY"),
            active_dropdown: None,
            editing_zo: None,
        };
        assert(app@.requirements =~= seq![single_50_top("req_1"@), diff_90_top("req_2"@)]);
        assert(app@.results =~= Seq::<(Seq<char>, Seq<ResultView>)>::empty());
        assert(app@.expanded_templates =~= Set::<Seq<char>>::empty());
        assert(app@.computing_templates =~= Set::<Seq<char>>::empty());
        assert(app@ == initial_view(app@.uuid));
        assert(lookups(app@) == 4) by (nonlinear_arith)
            requires
                app@.templates.len() == 2,
                app@.requirements.len() == 2,
        ;
        app.trigger_calc();
        let q = app.load_templates();
        (app, q)
    }

    /// Marks the fabricator's list as being fetched and returns the query
    /// to fetch it with.
    pub fn load_templates(&mut self) -> (q: TemplateQuery)
        ensures
            final(self)@ == begin_loading(old(self)@),
            is_query_for(q, old(self)@.config),
    {
        self.status_text = String::from_str("正在同步官方标准层压结构...");
        self.is_calculating = true;
        assert(self@.expanded_templates =~= old(self)@.expanded_templates);
        assert(self@.computing_templates =~= old(self)@.computing_templates);
        template_query(&self.config)
    }
}

// ---------------------------------------------------------------------
// Editing the target impedance
// ---------------------------------------------------------------------

/// The distance between two numbers.
pub open spec fn dist(a: nat, b: nat) -> nat {
    if a >= b {
        (a - b) as nat
    } else {
        (b - a) as nat
    }
}

/// `v` with requirement `idx` replaced by `r`.
pub open spec fn with_req(v: DeskView, idx: int, r: ReqView) -> DeskView {
    DeskView { requirements: v.requirements.update(idx, r), ..v }
}

/// The target `t` and the value `num / den` (thousandths) differ by more
/// than 0.01 ohm.
pub open spec fn differs_by_more_than_hundredth(t: nat, num: nat, den: nat) -> bool {
    t * den > num + 10 * den || num > t * den + 10 * den
}

/// The target a typed value becomes: the value in thousandths of an
/// ohm, rounded to the nearest one (a tie to the even one).
pub open spec fn typed_target(text: Seq<char>) -> nat {
    let f = milli_fraction(decimal_number(text).unwrap());
    crate::text::round_half_even(f.0, f.1)
}

/// Committing the typed text `text` to requirement `idx` changes its
/// target: the text writes a number from 10 to 200 ohm that differs from
/// the target by more than 0.01 ohm.
pub open spec fn commit_changes(v: DeskView, idx: usize, text: Seq<char>) -> bool {
    &&& reads_in_range(text)
    &&& idx < v.requirements.len()
    &&& differs_by_more_than_hundredth(
        v.requirements[idx as int].target_zo as nat,
        milli_fraction(decimal_number(text).unwrap()).0,
        milli_fraction(decimal_number(text).unwrap()).1,
    )
}

/// Committing the impedance being typed: nothing when no edit is open;
/// otherwise the edit is closed, and when its text writes a number from
/// 10 to 200 ohm (read as `f64::from_str` reads it, see `decimal_number`)
/// that differs from the requirement's target by more than 0.01 ohm, the
/// target takes that number rounded to a thousandth of an ohm and the
/// rows are rebuilt.
pub open spec fn commit(v: DeskView) -> DeskView {
    match v.editing_zo {
        None => v,
        Some(e) => {
            let idx = e.0;
            let closed = DeskView { editing_zo: None, ..v };
            if commit_changes(v, idx, e.1) {
                recalc(
                    with_req(
                        closed,
                        idx as int,
                        ReqView { target_zo: typed_target(e.1) as u32, ..v.requirements[idx as int] },
                    ),
                )
            } else {
                closed
            }
        },
    }
}

/// Committing changes no setting, template or list but the requirement
/// targets and what a rebuild changes, keeps the number of requirements,
/// and adds at most `lookups(v)` to the counters.
pub proof fn lemma_commit_frame(v: DeskView)
    ensures
        commit(v).cache_hits + commit(v).cache_misses <= v.cache_hits + v.cache_misses + lookups(v),
        commit(v).config == v.config,
        commit(v).requirements.len() == v.requirements.len(),
        commit(v).templates == v.templates,
        commit(v).expanded_templates == v.expanded_templates,
        commit(v).pinned_template == v.pinned_template,
        commit(v).computing_templates == v.computing_templates,
        commit(v).cache == v.cache,
        commit(v).uuid == v.uuid,
        commit(v).calc_strategy == v.calc_strategy,
        commit(v).active_dropdown == v.active_dropdown,
        commit(v).editing_zo is None,
        lookups(commit(v)) == lookups(v),
{
    match v.editing_zo {
        None => {},
        Some(e) => {
            let closed = DeskView { editing_zo: None, ..v };
            let idx = e.0;
            if commit_changes(v, idx, e.1) {
                let w = with_req(
                    closed,
                    idx as int,
                    ReqView { target_zo: typed_target(e.1) as u32, ..v.requirements[idx as int] },
                );
                lemma_recalc_frame(w);
            }
        },
    }
}

impl ImpedanceDesktopApp {
    /// Commits the impedance being typed (see `commit`).
    pub fn commit_editing_zo(&mut self)
        requires
            counters_room(old(self)@, lookups(old(self)@)),
        ensures
            final(self)@ == commit(old(self)@),
    {
        let ghost v = self@;
        let mut taken: Option<(usize, String)> = None;
        std::mem::swap(&mut taken, &mut self.editing_zo);
        assert(self@ == DeskView { editing_zo: None, ..v });
        if let Some(e) = taken {
            let idx = e.0;
            match read_in_range(e.1.as_str()) {
                Some((f, c)) => {
                    if idx < self.requirements.len() {
                        let cur = self.requirements[idx].target_zo as u64;
                        let fv = f as u64;
                        let differs = if c == 0 {
                            cur > fv + 10 || fv > cur + 10
                        } else {
                            cur >= fv + 11 || fv >= cur + 10
                        };
                        let ghost fr = milli_fraction(decimal_number(e.1@).unwrap());
                        proof {
                            lemma_typed_value(cur as nat, fr.0, fr.1, f as nat, c);
                        }
                        if differs {
                            let val: u64 = if c == 3 || (c == 2 && fv % 2 == 1) { fv + 1 } else { fv };
                            assert(val == typed_target(e.1@));
                            let mut req = self.requirements[idx].clone();
                            req.target_zo = val as u32;
                            self.requirements.set(idx, req);
                            assert(reqs_view(self.requirements@) =~= v.requirements.update(
                                idx as int,
                                ReqView { target_zo: val as u32, ..v.requirements[idx as int] },
                            ));
                            assert(self@ == with_req(
                                DeskView { editing_zo: None, ..v },
                                idx as int,
                                ReqView { target_zo: val as u32, ..v.requirements[idx as int] },
                            ));
                            self.trigger_calc();
                        }
                    }
                },
                None => {},
            }
        }
    }
}

/// How the floor `f` of `num / den` and the code `c` of its rest decide
/// whether a target `t` changes and what it becomes.
proof fn lemma_typed_value(t: nat, num: nat, den: nat, f: nat, c: u8)
    requires
        floor_and_code(num, den, f, c),
    ensures
        differs_by_more_than_hundredth(t, num, den) == (if c == 0 {
            t > f + 10 || f > t + 10
        } else {
            t >= f + 11 || f >= t + 10
        }),
        crate::text::round_half_even(num, den) == (if c == 3 || (c == 2 && f % 2 == 1) {
            f + 1
        } else {
            f
        }),
{
    let r = num % den;
    vstd::arithmetic::div_mod::lemma_fundamental_div_mod(num as int, den as int);
    assert(num == f * den + r);
    if r == 0 {
        if t > f + 10 {
            assert(t * den > num + 10 * den) by (nonlinear_arith)
                requires num == f * den, t >= f + 11, den >= 1;
        } else {
            assert(t * den <= num + 10 * den) by (nonlinear_arith)
                requires num == f * den, t <= f + 10, den >= 1;
        }
        if f > t + 10 {
            assert(num > t * den + 10 * den) by (nonlinear_arith)
                requires num == f * den, f >= t + 11, den >= 1;
        } else {
            assert(num <= t * den + 10 * den) by (nonlinear_arith)
                requires num == f * den, f <= t + 10, den >= 1;
        }
    } else {
        if t >= f + 11 {
            assert(t * den > num + 10 * den) by (nonlinear_arith)
                requires num == f * den + r, t >= f + 11, r < den;
        } else {
            assert(t * den <= num + 10 * den) by (nonlinear_arith)
                requires num == f * den + r, t <= f + 10, den >= 1;
        }
        if f >= t + 10 {
            assert(num > t * den + 10 * den) by (nonlinear_arith)
                requires num == f * den + r, f >= t + 10, r >= 1;
        } else {
            assert(num <= t * den + 10 * den) by (nonlinear_arith)
                requires num == f * den + r, f + 1 <= t + 10, r < den;
        }
    }
}

// ---------------------------------------------------------------------
// Drop-downs, board settings and the fabricator's list
// ---------------------------------------------------------------------

/// Opening a drop-down, or closing it when it is the one open.
pub open spec fn after_toggle_dropdown(v: DeskView, id: Seq<char>) -> DeskView {
    let c = commit(v);
    DeskView {
        active_dropdown: if c.active_dropdown == Some(id) {
            None
        } else {
            Some(id)
        },
        ..c
    }
}

/// The edit committed and every drop-down closed.
pub open spec fn dropdown_closed(v: DeskView) -> DeskView {
    DeskView { active_dropdown: None, ..commit(v) }
}

/// A board setting chosen from a drop-down that the fabricator's list
/// depends on: when it differs, the settings take it and the list is
/// fetched anew.
pub open spec fn reload_with(v: DeskView, cfg: BoardConfigView) -> DeskView {
    let c = dropdown_closed(v);
    if c.config != cfg {
        begin_loading(DeskView { config: cfg, ..c })
    } else {
        c
    }
}

/// A board setting chosen from a drop-down that only the shown rows
/// depend on: when it differs, the settings take it and the rows are
/// rebuilt.
pub open spec fn recalc_with(v: DeskView, cfg: BoardConfigView) -> DeskView {
    let c = dropdown_closed(v);
    if c.config != cfg {
        recalc(DeskView { config: cfg, ..c })
    } else {
        c
    }
}

/// Choosing the finished thickness `t` (micrometre): the settings take it
/// and the list is fetched anew only when it differs from the current one
/// by more than 0.001 mm.
pub open spec fn after_set_thickness(v: DeskView, t: u32) -> DeskView {
    let c = dropdown_closed(v);
    if dist(c.config.finished_thickness as nat, t as nat) > 1 {
        begin_loading(DeskView { config: BoardConfigView { finished_thickness: t, ..c.config }, ..c })
    } else {
        c
    }
}

/// The status once the fabricator's list of `n` templates arrived.
pub open spec fn synced_status(n: nat) -> Seq<char> {
    "已同步 "@ + crate::text::dec(n) + " 种官方标准层压模板"@
}

/// The fabricator's list arrived: it replaces the templates and the rows
/// are rebuilt.
pub open spec fn after_templates_loaded(v: DeskView, list: Seq<TemplateView>) -> DeskView {
    recalc(DeskView { templates: list, status_text: synced_status(list.len()), ..v })
}

/// Fetching the fabricator's list failed with `message`.
pub open spec fn after_templates_failed(v: DeskView, message: Seq<char>) -> DeskView {
    DeskView { status_text: "同步官方模板失败: "@ + message, is_calculating: false, ..v }
}

impl ImpedanceDesktopApp {
    fn close_active_dropdown(&mut self)
        ensures
            final(self)@ == (DeskView { active_dropdown: None, ..old(self)@ }),
    {
        self.active_dropdown = None;
        assert(self@.expanded_templates =~= old(self)@.expanded_templates);
        assert(self@.computing_templates =~= old(self)@.computing_templates);
    }

    /// Opens the drop-down `id`, or closes it when it is open.
    pub fn toggle_dropdown(&mut self, id: &str)
        requires
            counters_room(old(self)@, lookups(old(self)@)),
        ensures
            final(self)@ == after_toggle_dropdown(old(self)@, id@),
    {
        self.commit_editing_zo();
        let same = match &self.active_dropdown {
            Some(a) => str_eq(a.as_str(), id),
            None => false,
        };
        let ghost c = self@;
        if same {
            self.active_dropdown = None;
        } else {
            self.active_dropdown = Some(String::from_str(id));
        }
        assert(self@.expanded_templates =~= c.expanded_templates);
        assert(self@.computing_templates =~= c.computing_templates);
    }

    /// Commits the edit and closes any drop-down.
    pub fn close_dropdown(&mut self)
        requires
            counters_room(old(self)@, lookups(old(self)@)),
        ensures
            final(self)@ == dropdown_closed(old(self)@),
    {
        self.commit_editing_zo();
        self.close_active_dropdown();
    }

    fn reload_if_changed(&mut self, changed: bool) -> (r: Option<TemplateQuery>)
        ensures
            changed ==> final(self)@ == begin_loading(old(self)@),
            !changed ==> final(self)@ == old(self)@,
            r is Some <==> changed,
            r matches Some(q) ==> is_query_for(q, old(self)@.config),
    {
        if changed {
            Some(self.load_templates())
        } else {
            None
        }
    }

    /// Chooses the layer count; a change refetches the fabricator's list.
    pub fn set_layers(&mut self, layers: u32) -> (r: Option<TemplateQuery>)
        requires
            counters_room(old(self)@, lookups(old(self)@)),
        ensures
            final(self)@ == reload_with(old(self)@, (BoardConfigView { board_layer: layers, ..old(self)@.config })),
            r is Some <==> old(self)@.config.board_layer != layers,
            r matches Some(q) ==> is_query_for(q, final(self)@.config),
    {
        proof { lemma_commit_frame(old(self)@); }
        self.commit_editing_zo();
        self.close_active_dropdown();
        let changed = self.config.board_layer != layers;
        if changed {
            self.config.board_layer = layers;
        }
        self.reload_if_changed(changed)
    }

    /// Chooses the finished thickness (micrometre); a change of more than
    /// 0.001 mm refetches the fabricator's list (see `after_set_thickness`).
    pub fn set_thickness(&mut self, thickness: u32) -> (r: Option<TemplateQuery>)
        requires
            counters_room(old(self)@, lookups(old(self)@)),
        ensures
            final(self)@ == after_set_thickness(old(self)@, thickness),
            r is Some <==> dist(old(self)@.config.finished_thickness as nat, thickness as nat) > 1,
            r matches Some(q) ==> is_query_for(q, final(self)@.config),
    {
        proof { lemma_commit_frame(old(self)@); }
        self.commit_editing_zo();
        self.close_active_dropdown();
        let cur = self.config.finished_thickness;
        let changed = if cur >= thickness { cur - thickness > 1 } else { thickness - cur > 1 };
        if changed {
            self.config.finished_thickness = thickness;
        }
        self.reload_if_changed(changed)
    }

    /// Chooses the outer copper weight; a change refetches the list.
    pub fn set_outer_copper(&mut self, copper: &str) -> (r: Option<TemplateQuery>)
        requires
            counters_room(old(self)@, lookups(old(self)@)),
        ensures
            final(self)@ == reload_with(old(self)@, (BoardConfigView { cuprum_thickness: copper@, ..old(self)@.config })),
            r is Some <==> old(self)@.config.cuprum_thickness != copper@,
            r matches Some(q) ==> is_query_for(q, final(self)@.config),
    {
        proof { lemma_commit_frame(old(self)@); }
        self.commit_editing_zo();
        self.close_active_dropdown();
        let changed = !str_eq(self.config.cuprum_thickness.as_str(), copper);
        if changed {
            self.config.cuprum_thickness = String::from_str(copper);
        }
        self.reload_if_changed(changed)
    }

    /// Chooses the inner copper weight; a change refetches the list.
    pub fn set_inner_copper(&mut self, copper: &str) -> (r: Option<TemplateQuery>)
        requires
            counters_room(old(self)@, lookups(old(self)@)),
        ensures
            final(self)@ == reload_with(old(self)@, (BoardConfigView { inner_copper_thickness: copper@, ..old(self)@.config })),
            r is Some <==> old(self)@.config.inner_copper_thickness != copper@,
            r matches Some(q) ==> is_query_for(q, final(self)@.config),
    {
        proof { lemma_commit_frame(old(self)@); }
        self.commit_editing_zo();
        self.close_active_dropdown();
        let changed = !str_eq(self.config.inner_copper_thickness.as_str(), copper);
        if changed {
            self.config.inner_copper_thickness = String::from_str(copper);
        }
        self.reload_if_changed(changed)
    }

    /// Chooses the board material; a change refetches the list.
    pub fn set_plate_type(&mut self, plate_type: &str) -> (r: Option<TemplateQuery>)
        requires
            counters_room(old(self)@, lookups(old(self)@)),
        ensures
            final(self)@ == reload_with(old(self)@, (BoardConfigView { plate_type: plate_type@, ..old(self)@.config })),
            r is Some <==> old(self)@.config.plate_type != plate_type@,
            r matches Some(q) ==> is_query_for(q, final(self)@.config),
    {
        proof { lemma_commit_frame(old(self)@); }
        self.commit_editing_zo();
        self.close_active_dropdown();
        let changed = !str_eq(self.config.plate_type.as_str(), plate_type);
        if changed {
            self.config.plate_type = String::from_str(plate_type);
        }
        self.reload_if_changed(changed)
    }

    /// Chooses the display unit; a change rebuilds the rows.
    pub fn set_unit(&mut self, unit: &str)
        requires
            counters_room(old(self)@, lookups(old(self)@) + lookups(old(self)@)),
        ensures
            final(self)@ == recalc_with(old(self)@, (BoardConfigView { unit: unit@, ..old(self)@.config })),
    {
        proof { lemma_commit_frame(old(self)@); }
        self.commit_editing_zo();
        self.close_active_dropdown();
        if !str_eq(self.config.unit.as_str(), unit) {
            self.config.unit = String::from_str(unit);
            self.trigger_calc();
        }
    }

    /// The fabricator's list arrived.
    pub fn templates_loaded(&mut self, list: Vec<StackupTemplate>)
        requires
            counters_room(old(self)@, list@.len() * old(self)@.requirements.len()),
        ensures
            final(self)@ == after_templates_loaded(old(self)@, templates_view(list@)),
    {
        proof {
            reveal_strlit("已同步 ");
            reveal_strlit(" 种官方标准层压模板");
        }
        let mut status = String::from_str("已同步 ");
        crate::text::push_dec(&mut status, list.len() as u64);
        status.append(" 种官方标准层压模板");
        self.templates = list;
        self.status_text = status;
        assert(self@.expanded_templates =~= old(self)@.expanded_templates);
        assert(self@.computing_templates =~= old(self)@.computing_templates);
        self.trigger_calc();
    }

    /// Fetching the fabricator's list failed with `message`.
    pub fn templates_failed(&mut self, message: &str)
        ensures
            final(self)@ == after_templates_failed(old(self)@, message@),
    {
        let mut status = String::from_str("同步官方模板失败: ");
        status.append(message);
        self.status_text = status;
        self.is_calculating = false;
        assert(self@.expanded_templates =~= old(self)@.expanded_templates);
        assert(self@.computing_templates =~= old(self)@.computing_templates);
    }
}

// ---------------------------------------------------------------------
// Requirements
// ---------------------------------------------------------------------

/// The requirement a preset adds, with the id `id`; `None` for an
/// unknown preset.
pub open spec fn preset_req(kind: Seq<char>, id: Seq<char>, bottom: u32) -> Option<ReqView> {
    if kind == "50_l1"@ {
        Some(single_50_top(id))
    } else if kind == "90_l1"@ {
        Some(diff_90_top(id))
    } else if kind == "100_l1"@ {
        Some(diff_100_top(id))
    } else if kind == "50_l4"@ {
        Some(single_50_bottom(id, bottom))
    } else {
        None
    }
}

/// `v` with `r` added as the last requirement.
pub open spec fn with_new_req(v: DeskView, r: ReqView) -> DeskView {
    DeskView { requirements: v.requirements.push(r), ..v }
}

/// Adding a preset requirement (with the fresh id `id`); an unknown
/// preset adds nothing; the rows are rebuilt either way.
pub open spec fn after_add_preset(v: DeskView, kind: Seq<char>, id: Seq<char>) -> DeskView {
    let c = commit(v);
    match preset_req(kind, id, c.config.board_layer) {
        Some(r) => recalc(with_new_req(c, r)),
        None => recalc(c),
    }
}

/// Adding a 50 ohm top-layer requirement with the fresh id `id`.
pub open spec fn after_add_custom(v: DeskView, id: Seq<char>) -> DeskView {
    recalc(with_new_req(commit(v), single_50_top(id)))
}

/// Copying requirement `idx` (with the fresh id `id`) right after it.
pub open spec fn after_copy(v: DeskView, idx: usize, id: Seq<char>) -> DeskView {
    let c = commit(v);
    if idx < c.requirements.len() {
        recalc(
            DeskView {
                requirements: c.requirements.insert(idx + 1, ReqView { id, ..c.requirements[idx as int] }),
                ..c
            },
        )
    } else {
        c
    }
}

/// A target held between 10 and 200 ohm.
pub open spec fn clamp_zo(x: int) -> u32 {
    if x < 10_000 {
        10_000
    } else if x > 200_000 {
        200_000
    } else {
        x as u32
    }
}

/// Moving requirement `idx`'s target by `delta` milliohm, held between
/// 10 and 200 ohm.
pub open spec fn after_adjust(v: DeskView, idx: usize, delta: i32) -> DeskView {
    let c = commit(v);
    if idx < c.requirements.len() {
        recalc(
            with_req(
                c,
                idx as int,
                ReqView { target_zo: clamp_zo(c.requirements[idx as int].target_zo + delta), ..c.requirements[idx as int] },
            ),
        )
    } else {
        c
    }
}

/// A requirement field chosen from a drop-down: the drop-down closes and,
/// when requirement `idx` exists and `r` differs from it, `r` replaces it
/// and the rows are rebuilt.
pub open spec fn replace_req(v: DeskView, idx: usize, r: ReqView) -> DeskView {
    let c = DeskView { active_dropdown: None, ..v };
    if idx < c.requirements.len() && c.requirements[idx as int] != r {
        recalc(with_req(c, idx as int, r))
    } else {
        c
    }
}

/// Requirement `idx` with the mode `mode`.
pub open spec fn with_mode(v: DeskView, idx: usize, mode: Seq<char>) -> ReqView {
    ReqView { mode, ..v.requirements[idx as int] }
}

/// Requirement `idx` moved to `layer`, its reference planes following:
/// L2 below for the top layer, the layer above for the bottom layer, the
/// layers on both sides otherwise.
pub open spec fn with_layer(v: DeskView, idx: usize, layer: u32) -> ReqView {
    let (up, down) = if layer == 1 {
        (None, Some(2u32))
    } else if layer == v.config.board_layer {
        (Some((layer - 1) as u32), None)
    } else {
        (Some((layer - 1) as u32), Some((layer + 1) as u32))
    };
    ReqView { layer, up_ref: up, down_ref: down, ..v.requirements[idx as int] }
}

/// Moving requirement `idx` to another layer (see `with_layer`); a
/// layer it is already on changes nothing but the drop-down.
pub open spec fn after_set_layer(v: DeskView, idx: usize, layer: u32) -> DeskView {
    let c = DeskView { active_dropdown: None, ..v };
    if idx < c.requirements.len() && c.requirements[idx as int].layer != layer {
        recalc(with_req(c, idx as int, with_layer(c, idx, layer)))
    } else {
        c
    }
}

/// Requirement `idx` with the upper reference `up`.
pub open spec fn with_up_ref(v: DeskView, idx: usize, up: Option<u32>) -> ReqView {
    ReqView { up_ref: up, ..v.requirements[idx as int] }
}

/// Requirement `idx` with the lower reference `down`.
pub open spec fn with_down_ref(v: DeskView, idx: usize, down: Option<u32>) -> ReqView {
    ReqView { down_ref: down, ..v.requirements[idx as int] }
}

/// Deleting requirement `idx`, unless it is the last one left.
pub open spec fn after_delete(v: DeskView, idx: usize) -> DeskView {
    let c = dropdown_closed(v);
    if c.requirements.len() > 1 {
        recalc(DeskView { requirements: c.requirements.remove(idx as int), ..c })
    } else {
        c
    }
}

impl ImpedanceDesktopApp {
    fn push_req(&mut self, r: ImpedanceReq)
        ensures
            final(self)@ == with_new_req(old(self)@, r@),
    {
        self.requirements.push(r);
        assert(reqs_view(self.requirements@) =~= old(self)@.requirements.push(r@));
        assert(self@.expanded_templates =~= old(self)@.expanded_templates);
        assert(self@.computing_templates =~= old(self)@.computing_templates);
    }

    fn put_req(&mut self, idx: usize, r: ImpedanceReq)
        requires
            idx < old(self).requirements@.len(),
        ensures
            final(self)@ == with_req(old(self)@, idx as int, r@),
    {
        self.requirements.set(idx, r);
        assert(reqs_view(self.requirements@) =~= old(self)@.requirements.update(idx as int, r@));
        assert(self@.expanded_templates =~= old(self)@.expanded_templates);
        assert(self@.computing_templates =~= old(self)@.computing_templates);
    }

    fn push_preset(&mut self, preset_type: &str)
        requires
            preset_type@ == "50_l4"@ ==> old(self)@.config.board_layer >= 1,
        ensures
            preset_req(preset_type@, seq![], old(self)@.config.board_layer) is Some ==> {
                &&& crate::ids::is_prefixed_uuid(final(self)@.requirements.last().id, "req_"@)
                &&& final(self)@ == with_new_req(
                    old(self)@,
                    preset_req(preset_type@, final(self)@.requirements.last().id, old(self)@.config.board_layer).unwrap(),
                )
            },
            preset_req(preset_type@, seq![], old(self)@.config.board_layer) is None ==> final(self)@
                == old(self)@,
    {
        proof {
            reveal_strlit("50_l1");
            reveal_strlit("90_l1");
            reveal_strlit("100_l1");
            reveal_strlit("50_l4");
        }
        if str_eq(preset_type, "50_l1") {
            let id = crate::ids::new_requirement_id();
            self.push_req(new_req(id, 50_000, "单端阻抗（外层）", 1, None, Some(2), 8000, None));
        } else if str_eq(preset_type, "90_l1") {
            let id = crate::ids::new_requirement_id();
            self.push_req(new_req(id, 90_000, "差分阻抗（外层）", 1, None, Some(2), 4500, Some(5500)));
        } else if str_eq(preset_type, "100_l1") {
            let id = crate::ids::new_requirement_id();
            self.push_req(new_req(id, 100_000, "差分阻抗（外层）", 1, None, Some(2), 4000, Some(6000)));
        } else if str_eq(preset_type, "50_l4") {
            let bot = self.config.board_layer;
            let id = crate::ids::new_requirement_id();
            self.push_req(new_req(id, 50_000, "单端阻抗（外层）", bot, Some(bot - 1), None, 8000, None));
        }
    }

    /// Adds a preset requirement with a fresh id: `"50_l1"`, `"90_l1"`,
    /// `"100_l1"` or `"50_l4"` (see `preset_req`); the rows are rebuilt.
    pub fn add_preset(&mut self, preset_type: &str)
        requires
            preset_type@ == "50_l4"@ ==> old(self)@.config.board_layer >= 1,
            counters_room(
                old(self)@,
                lookups(old(self)@) + old(self)@.templates.len() * (old(self)@.requirements.len() + 1),
            ),
        ensures
            preset_req(preset_type@, seq![], old(self)@.config.board_layer) is Some ==> {
                &&& crate::ids::is_prefixed_uuid(final(self)@.requirements.last().id, "req_"@)
                &&& final(self)@ == after_add_preset(
                    old(self)@,
                    preset_type@,
                    final(self)@.requirements.last().id,
                )
            },
            preset_req(preset_type@, seq![], old(self)@.config.board_layer) is None ==> final(self)@
                == after_add_preset(old(self)@, preset_type@, seq![]),
    {
        proof {
            lemma_commit_frame(old(self)@);
        }
        self.commit_editing_zo();
        let ghost c = self@;
        self.push_preset(preset_type);
        proof {
            assert(self@.templates == c.templates);
            assert(self@.requirements.len() <= c.requirements.len() + 1);
            assert(lookups(self@) <= c.templates.len() * (c.requirements.len() + 1)) by (nonlinear_arith)
                requires
                    self@.requirements.len() <= c.requirements.len() + 1,
                    self@.templates.len() == c.templates.len(),
            ;
        }
        self.trigger_calc();
    }

    /// Adds a 50 ohm top-layer requirement with a fresh id.
    pub fn add_custom_requirement(&mut self)
        requires
            counters_room(
                old(self)@,
                lookups(old(self)@) + old(self)@.templates.len() * (old(self)@.requirements.len() + 1),
            ),
        ensures
            crate::ids::is_prefixed_uuid(final(self)@.requirements.last().id, "req_"@),
            final(self)@ == after_add_custom(old(self)@, final(self)@.requirements.last().id),
    {
        proof {
            lemma_commit_frame(old(self)@);
        }
        self.commit_editing_zo();
        let id = crate::ids::new_requirement_id();
        self.push_req(new_req(id, 50_000, "单端阻抗（外层）", 1, None, Some(2), 8000, None));
        self.trigger_calc();
    }

    /// Copies requirement `idx`, with a fresh id, right after it.
    pub fn copy_requirement(&mut self, idx: usize)
        requires
            counters_room(
                old(self)@,
                lookups(old(self)@) + old(self)@.templates.len() * (old(self)@.requirements.len() + 1),
            ),
        ensures
            idx < old(self)@.requirements.len() ==> {
                &&& crate::ids::is_prefixed_uuid(final(self)@.requirements[idx + 1].id, "req_"@)
                &&& final(self)@ == after_copy(old(self)@, idx, final(self)@.requirements[idx + 1].id)
            },
            idx >= old(self)@.requirements.len() ==> final(self)@ == after_copy(old(self)@, idx, seq![]),
    {
        proof {
            lemma_commit_frame(old(self)@);
        }
        self.commit_editing_zo();
        if idx < self.requirements.len() {
            let ghost c = self@;
            let mut r = self.requirements[idx].clone();
            r.id = crate::ids::new_requirement_id();
            self.requirements.insert(idx + 1, r);
            assert(reqs_view(self.requirements@) =~= c.requirements.insert(idx + 1, r@));
            assert(self@.expanded_templates =~= c.expanded_templates);
            assert(self@.computing_templates =~= c.computing_templates);
            self.trigger_calc();
        }
    }

    /// Moves requirement `idx`'s target by `delta` milliohm (the -5/+5
    /// buttons pass -5000 and 5000), held between 10 and 200 ohm.
    pub fn adjust_target_zo(&mut self, req_idx: usize, delta: i32)
        requires
            counters_room(old(self)@, lookups(old(self)@) + lookups(old(self)@)),
        ensures
            final(self)@ == after_adjust(old(self)@, req_idx, delta),
    {
        proof {
            lemma_commit_frame(old(self)@);
        }
        self.commit_editing_zo();
        if req_idx < self.requirements.len() {
            let t: i64 = self.requirements[req_idx].target_zo as i64 + delta as i64;
            let z: u32 = if t < 10_000 {
                10_000
            } else if t > 200_000 {
                200_000
            } else {
                t as u32
            };
            let mut r = self.requirements[req_idx].clone();
            r.target_zo = z;
            self.put_req(req_idx, r);
            self.trigger_calc();
        }
    }

    fn replace_and_recalc(&mut self, idx: usize, r: ImpedanceReq)
        requires
            idx < old(self).requirements@.len(),
            counters_room(old(self)@, lookups(old(self)@)),
        ensures
            final(self)@ == replace_req(old(self)@, idx, r@),
    {
        self.close_active_dropdown();
        let ghost c = self@;
        let differs = self.requirements[idx].id != r.id || self.requirements[idx].target_zo
            != r.target_zo || self.requirements[idx].mode != r.mode || self.requirements[idx].layer
            != r.layer || self.requirements[idx].up_ref != r.up_ref || self.requirements[idx].down_ref
            != r.down_ref || self.requirements[idx].tolerance != r.tolerance
            || self.requirements[idx].w1 != r.w1 || self.requirements[idx].s1 != r.s1
            || self.requirements[idx].d1 != r.d1;
        if differs {
            self.put_req(idx, r);
            self.trigger_calc();
        }
    }

    /// Chooses requirement `req_idx`'s line mode.
    pub fn set_req_mode(&mut self, req_idx: usize, mode: &str)
        requires
            counters_room(old(self)@, lookups(old(self)@)),
        ensures
            req_idx < old(self)@.requirements.len() ==> final(self)@ == replace_req(old(self)@, req_idx, with_mode(old(self)@, req_idx, mode@)),
            req_idx >= old(self)@.requirements.len() ==> final(self)@ == (DeskView { active_dropdown: None, ..old(self)@ }),
    {
        if req_idx < self.requirements.len() {
            let mut r = self.requirements[req_idx].clone();
            r.mode = String::from_str(mode);
            self.replace_and_recalc(req_idx, r);
        } else {
            self.close_active_dropdown();
        }
    }

    /// Moves requirement `req_idx` to `layer`, its reference planes
    /// following (see `with_layer`).
    pub fn set_req_layer(&mut self, req_idx: usize, layer: u32)
        requires
            req_idx < old(self)@.requirements.len() && old(self)@.requirements[req_idx as int].layer != layer
                ==> layer >= 1 && (layer != old(self)@.config.board_layer ==> layer < u32::MAX),
            counters_room(old(self)@, lookups(old(self)@)),
        ensures
            final(self)@ == after_set_layer(old(self)@, req_idx, layer),
    {
        if req_idx < self.requirements.len() {
            if self.requirements[req_idx].layer == layer {
                self.close_active_dropdown();
                return;
            }
            let mut r = self.requirements[req_idx].clone();
            r.layer = layer;
            if layer == 1 {
                r.up_ref = None;
                r.down_ref = Some(2);
            } else if layer == self.config.board_layer {
                r.up_ref = Some(layer - 1);
                r.down_ref = None;
            } else {
                r.up_ref = Some(layer - 1);
                r.down_ref = Some(layer + 1);
            }
            self.replace_and_recalc(req_idx, r);
        } else {
            self.close_active_dropdown();
        }
    }

    /// Chooses requirement `req_idx`'s upper reference plane.
    pub fn set_req_up_ref(&mut self, req_idx: usize, up_ref: Option<u32>)
        requires
            counters_room(old(self)@, lookups(old(self)@)),
        ensures
            req_idx < old(self)@.requirements.len() ==> final(self)@ == replace_req(old(self)@, req_idx, with_up_ref(old(self)@, req_idx, up_ref)),
            req_idx >= old(self)@.requirements.len() ==> final(self)@ == (DeskView { active_dropdown: None, ..old(self)@ }),
    {
        if req_idx < self.requirements.len() {
            let mut r = self.requirements[req_idx].clone();
            r.up_ref = up_ref;
            self.replace_and_recalc(req_idx, r);
        } else {
            self.close_active_dropdown();
        }
    }

    /// Chooses requirement `req_idx`'s lower reference plane.
    pub fn set_req_down_ref(&mut self, req_idx: usize, down_ref: Option<u32>)
        requires
            counters_room(old(self)@, lookups(old(self)@)),
        ensures
            req_idx < old(self)@.requirements.len() ==> final(self)@ == replace_req(old(self)@, req_idx, with_down_ref(old(self)@, req_idx, down_ref)),
            req_idx >= old(self)@.requirements.len() ==> final(self)@ == (DeskView { active_dropdown: None, ..old(self)@ }),
    {
        if req_idx < self.requirements.len() {
            let mut r = self.requirements[req_idx].clone();
            r.down_ref = down_ref;
            self.replace_and_recalc(req_idx, r);
        } else {
            self.close_active_dropdown();
        }
    }

    /// Deletes requirement `req_idx`, unless it is the only one.
    pub fn delete_req(&mut self, req_idx: usize)
        requires
            old(self)@.requirements.len() > 1 ==> req_idx < old(self)@.requirements.len(),
            counters_room(old(self)@, lookups(old(self)@) + lookups(old(self)@)),
        ensures
            final(self)@ == after_delete(old(self)@, req_idx),
            old(self)@.requirements.len() > 1 ==> final(self)@.requirements == commit(
                old(self)@,
            ).requirements.remove(req_idx as int),
            old(self)@.requirements.len() >= 1 ==> final(self)@.requirements.len() >= 1,
    {
        proof {
            lemma_commit_frame(old(self)@);
            let c = dropdown_closed(old(self)@);
            if c.requirements.len() > 1 {
                lemma_recalc_frame(DeskView { requirements: c.requirements.remove(req_idx as int), ..c });
            }
        }
        self.commit_editing_zo();
        self.close_active_dropdown();
        if self.requirements.len() > 1 {
            let ghost c = self@;
            self.requirements.remove(req_idx);
            assert(reqs_view(self.requirements@) =~= c.requirements.remove(req_idx as int));
            assert(self@.expanded_templates =~= c.expanded_templates);
            assert(self@.computing_templates =~= c.computing_templates);
            proof {
                assert(lookups(self@) <= lookups(c)) by (nonlinear_arith)
                    requires
                        self@.requirements.len() <= c.requirements.len(),
                        self@.templates.len() == c.templates.len(),
                ;
            }
            self.trigger_calc();
        }
    }
}

// ---------------------------------------------------------------------
// Pinning, expanding, the cache, the strategy and the editor
// ---------------------------------------------------------------------

/// Pinning `code`, or unpinning it when it is the pinned one; the pinned
/// template's row moves to the front.
pub open spec fn after_pin(v: DeskView, code: Seq<char>) -> DeskView {
    let c = commit(v);
    let pinned = if c.pinned_template == Some(code) {
        None
    } else {
        Some(code)
    };
    DeskView { pinned_template: pinned, results: pin_first(c.results, pinned), ..c }
}

/// Opening or closing the material list of `code`.
pub open spec fn after_toggle_expand(v: DeskView, code: Seq<char>) -> DeskView {
    DeskView {
        expanded_templates: if v.expanded_templates.contains(code) {
            v.expanded_templates.remove(code)
        } else {
            v.expanded_templates.insert(code)
        },
        ..v
    }
}

/// Emptying the cache and its counters.
pub open spec fn after_clear_cache(v: DeskView) -> DeskView {
    DeskView {
        cache: Map::empty(),
        cache_hits: 0,
        cache_misses: 0,
        cache_epoch: (v.cache_epoch + 1) as u64,
        status_text: "本地阻抗缓存已清空"@,
        ..v
    }
}

/// Opening the editor on requirement `idx` with its target rounded to a
/// whole ohm.
pub open spec fn after_begin_edit(v: DeskView, idx: usize) -> DeskView {
    DeskView {
        editing_zo: Some((idx, crate::text::whole_milli(v.requirements[idx as int].target_zo as nat))),
        ..v
    }
}

/// Text the impedance editor can hold: at most five characters, each a
/// digit or `.`, at most one `.`, and at most three characters after it.
pub open spec fn editor_text(s: Seq<char>) -> bool {
    &&& s.len() <= 5
    &&& forall|i: int| 0 <= i < s.len() ==> crate::text::is_digit(#[trigger] s[i]) || s[i] == '.'
    &&& forall|i: int, j: int| 0 <= i < j < s.len() && #[trigger] s[i] == '.' ==> #[trigger] s[j] != '.'
    &&& forall|i: int| 0 <= i < s.len() && #[trigger] s[i] == '.' ==> s.len() - i - 1 <= 3
}

/// A key typed into the impedance editor of requirement `idx`: a digit
/// is added while the text is under 4 bytes, a `.` once while under 5
/// bytes, `backspace` removes the last character, `enter`/`return`
/// commits, `escape` closes the editor; other keys, or an editor open on
/// another requirement, change nothing.
pub open spec fn after_key(v: DeskView, idx: usize, key: Seq<char>) -> DeskView {
    match v.editing_zo {
        Some(e) => if e.0 == idx {
            let text = e.1;
            if key.len() == 1 && crate::text::is_digit(key[0]) {
                if (vstd::utf8::encode_utf8(text).len() as usize) < 4 {
                    DeskView { editing_zo: Some((idx, text + key)), ..v }
                } else {
                    v
                }
            } else if key == "."@ {
                if !text.contains('.') && (vstd::utf8::encode_utf8(text).len() as usize) < 5 {
                    DeskView { editing_zo: Some((idx, text.push('.'))), ..v }
                } else {
                    v
                }
            } else if key == "backspace"@ {
                if text.len() > 0 {
                    DeskView { editing_zo: Some((idx, text.drop_last())), ..v }
                } else {
                    v
                }
            } else if key == "enter"@ || key == "return"@ {
                commit(v)
            } else if key == "escape"@ {
                DeskView { editing_zo: None, ..v }
            } else {
                v
            }
        } else {
            v
        },
        None => v,
    }
}

/// Choosing the strategy and rebuilding the rows.
pub open spec fn after_set_strategy(v: DeskView, strategy: Seq<char>) -> DeskView {
    recalc(DeskView { calc_strategy: strategy, ..v })
}

impl ImpedanceDesktopApp {
    /// Pins the template `code` (or unpins it when pinned) and moves its
    /// row to the front.
    pub fn pin_template(&mut self, code: &str)
        requires
            counters_room(old(self)@, lookups(old(self)@)),
        ensures
            final(self)@ == after_pin(old(self)@, code@),
    {
        self.commit_editing_zo();
        let ghost c = self@;
        let same = match &self.pinned_template {
            Some(p) => str_eq(p.as_str(), code),
            None => false,
        };
        if same {
            self.pinned_template = None;
        } else {
            self.pinned_template = Some(String::from_str(code));
        }
        let mut rows: Vec<(String, Vec<ImpedanceResult>)> = Vec::new();
        std::mem::swap(&mut rows, &mut self.results);
        pin_rows(&mut rows, &self.pinned_template);
        self.results = rows;
        assert(self@.expanded_templates =~= c.expanded_templates);
        assert(self@.computing_templates =~= c.computing_templates);
    }

    /// Opens or closes the material list of the template `code`.
    pub fn toggle_expand(&mut self, code: &str)
        ensures
            final(self)@ == after_toggle_expand(old(self)@, code@),
    {
        let ghost v = self@;
        let ghost ev = self.expanded_templates@;
        let key = String::from_str(code);
        let mut kept: Vec<String> = Vec::new();
        let mut found = false;
        let mut i: usize = 0;
        proof {
            assert(ev.take(0) =~= Seq::<String>::empty());
            lemma_text_set_empty(ev.take(0));
            lemma_text_set_empty(kept@);
            assert(text_set(ev.take(0)).remove(code@) =~= Set::<Seq<char>>::empty());
        }
        while i < self.expanded_templates.len()
            invariant
                i <= ev.len(),
                self@ == v,
                self.expanded_templates@ == ev,
                key@ == code@,
                found == text_set(ev.take(i as int)).contains(code@),
                text_set(kept@) == text_set(ev.take(i as int)).remove(code@),
            decreases self.expanded_templates.len() - i,
        {
            let item = self.expanded_templates[i].clone();
            proof {
                assert(ev.take(i + 1) =~= ev.take(i as int).push(item));
                lemma_text_set_push(ev.take(i as int), item);
            }
            if item == key {
                found = true;
                assert(text_set(ev.take(i + 1)).remove(code@) =~= text_set(ev.take(i as int)).remove(code@));
            } else {
                proof {
                    lemma_text_set_push(kept@, item);
                }
                kept.push(item);
                assert(text_set(kept@) =~= text_set(ev.take(i + 1)).remove(code@));
            }
            i = i + 1;
        }
        assert(ev.take(ev.len() as int) =~= ev);
        if found {
            self.expanded_templates = kept;
        } else {
            proof {
                lemma_text_set_push(ev, key);
            }
            self.expanded_templates.push(key);
        }
        assert(self@.computing_templates =~= v.computing_templates);
        assert(self@.expanded_templates =~= after_toggle_expand(v, code@).expanded_templates);
    }

    /// Empties the cache.
    pub fn clear_cache(&mut self)
        requires
            old(self).cache_epoch < u64::MAX,
        ensures
            final(self)@ == after_clear_cache(old(self)@),
    {
        self.cache = ImpedanceCache::new();
        self.cache_epoch = self.cache_epoch + 1;
        self.status_text = String::from_str("本地阻抗缓存已清空");
        assert(self@.expanded_templates =~= old(self)@.expanded_templates);
        assert(self@.computing_templates =~= old(self)@.computing_templates);
    }

    /// Opens the impedance editor on requirement `idx`.
    pub fn begin_editing_zo(&mut self, idx: usize)
        requires
            idx < old(self)@.requirements.len(),
        ensures
            final(self)@ == after_begin_edit(old(self)@, idx),
    {
        let mut text = String::new();
        crate::text::push_whole_milli(&mut text, self.requirements[idx].target_zo as u64);
        assert(text@ =~= crate::text::whole_milli(old(self)@.requirements[idx as int].target_zo as nat));
        self.editing_zo = Some((idx, text));
        assert(self@.expanded_templates =~= old(self)@.expanded_templates);
        assert(self@.computing_templates =~= old(self)@.computing_templates);
    }

    /// Handles a key typed into the impedance editor of requirement `idx`.
    pub fn edit_zo_key(&mut self, idx: usize, key: &str)
        requires
            counters_room(old(self)@, lookups(old(self)@)),
        ensures
            final(self)@ == after_key(old(self)@, idx, key@),
    {
        proof {
            reveal_strlit(".");
            reveal_strlit("backspace");
            reveal_strlit("enter");
            reveal_strlit("return");
            reveal_strlit("escape");
        }
        let open_here = match &self.editing_zo {
            Some(e) => e.0 == idx,
            None => false,
        };
        if !open_here {
            return;
        }
        let ghost v = self@;
        let mut e: Option<(usize, String)> = None;
        std::mem::swap(&mut e, &mut self.editing_zo);
        let (i, mut text) = e.unwrap();
        let kc = crate::text::chars_of(key);
        let tc = crate::text::chars_of(text.as_str());
        if kc.len() == 1 && '0' <= kc[0] && kc[0] <= '9' {
            if text.as_str().len() < 4 {
                text.append(key);
            }
            self.editing_zo = Some((i, text));
            assert(self@.expanded_templates =~= v.expanded_templates);
            assert(self@.computing_templates =~= v.computing_templates);
            assert(self@ == after_key(v, idx, key@));
        } else if str_eq(key, ".") {
            let mut has_dot = false;
            let mut j: usize = 0;
            while j < tc.len()
                invariant
                    j <= tc@.len(),
                    has_dot == exists|q: int| 0 <= q < j && tc@[q] == '.',
                decreases tc.len() - j,
            {
                if tc[j] == '.' {
                    has_dot = true;
                }
                j = j + 1;
            }
            assert(has_dot == tc@.contains('.'));
            if !has_dot && text.as_str().len() < 5 {
                text.append(".");
                assert(text@ =~= tc@.push('.'));
            }
            self.editing_zo = Some((i, text));
            assert(self@.expanded_templates =~= v.expanded_templates);
            assert(self@.computing_templates =~= v.computing_templates);
            assert(self@ == after_key(v, idx, key@));
        } else if str_eq(key, "backspace") {
            let n = tc.len();
            if n > 0 {
                let shorter = String::from_str(text.as_str().substring_char(0, n - 1));
                assert(shorter@ =~= text@.drop_last());
                self.editing_zo = Some((i, shorter));
            } else {
                self.editing_zo = Some((i, text));
            }
            assert(self@.expanded_templates =~= v.expanded_templates);
            assert(self@.computing_templates =~= v.computing_templates);
            assert(self@ == after_key(v, idx, key@));
        } else if str_eq(key, "enter") || str_eq(key, "return") {
            self.editing_zo = Some((i, text));
            assert(self@ == v);
            self.commit_editing_zo();
        } else if str_eq(key, "escape") {
        } else {
            self.editing_zo = Some((i, text));
        }
        assert(self@.expanded_templates =~= v.expanded_templates);
        assert(self@.computing_templates =~= v.computing_templates);
    }

    /// Chooses the strategy (`"RECOMMENDED_ONLY"` or `"ALL"`) and
    /// rebuilds the rows.
    pub fn set_calc_strategy(&mut self, strategy: &str)
        requires
            counters_room(old(self)@, lookups(old(self)@)),
        ensures
            final(self)@ == after_set_strategy(old(self)@, strategy@),
    {
        self.calc_strategy = String::from_str(strategy);
        assert(self@.expanded_templates =~= old(self)@.expanded_templates);
        assert(self@.computing_templates =~= old(self)@.computing_templates);
        self.trigger_calc();
    }
}

// ---------------------------------------------------------------------
// Solving a template when its card comes into view
// ---------------------------------------------------------------------

/// The work handed to the background for one template: its stack-up,
/// the requirements, their cache keys and what the cache held for each
/// at hand-over (`None` where the solver must be asked).
pub struct TemplateJob {
    pub code: String,
    pub template: StackupTemplate,
    pub requests: Vec<ImpedanceReq>,
    pub keys: Vec<String>,
    pub cached: Vec<Option<ImpedanceResult>>,
    pub uuid: String,
    /// The cache's epoch at hand-over.
    pub epoch: u64,
}

/// The view of an optional result.
pub open spec fn opt_result_view(o: Option<ImpedanceResult>) -> Option<ResultView> {
    match o {
        None => None,
        Some(r) => Some(r@),
    }
}

/// The views of a list of optional results.
pub open spec fn opt_results_view(v: Seq<Option<ImpedanceResult>>) -> Seq<Option<ResultView>> {
    v.map_values(|o: Option<ImpedanceResult>| opt_result_view(o))
}

/// The stored result for `req` on `code`, if any.
pub open spec fn stored_for(cache: Map<Seq<char>, ResultView>, code: Seq<char>, req: ReqView) -> Option<ResultView> {
    let k = cache_key(code, req);
    if cache.dom().contains(k) {
        Some(cache[k])
    } else {
        None
    }
}

/// `p` is the first template with the code `code`.
pub open spec fn is_first_template(ts: Seq<TemplateView>, code: Seq<char>, p: int) -> bool {
    0 <= p < ts.len() && ts[p].code == code && forall|j: int| 0 <= j < p ==> ts[j].code != code
}

/// The position of the first template with the code `code`.
pub open spec fn first_template_index(ts: Seq<TemplateView>, code: Seq<char>) -> int {
    choose|p: int| is_first_template(ts, code, p)
}

/// Some template has the code `code`.
pub open spec fn has_template(ts: Seq<TemplateView>, code: Seq<char>) -> bool {
    exists|p: int| 0 <= p < ts.len() && ts[p].code == code
}

/// `job` is the work for the template `code` in the state `v`.
pub open spec fn job_for(job: TemplateJob, v: DeskView, code: Seq<char>) -> bool {
    &&& job.code@ == code
    &&& job.template@ == v.templates[first_template_index(v.templates, code)]
    &&& reqs_view(job.requests@) == v.requirements
    &&& texts(job.keys@) == v.requirements.map_values(|r: ReqView| cache_key(code, r))
    &&& opt_results_view(job.cached@) == v.requirements.map_values(|r: ReqView| stored_for(v.cache, code, r))
    &&& job.uuid@ == v.uuid
    &&& job.epoch == v.cache_epoch
}

/// Handing the template `code` to the background: nothing when it is
/// already being solved or unknown; otherwise it is marked as being
/// solved and every requirement is looked up once in the cache.
pub open spec fn after_start_job(v: DeskView, code: Seq<char>) -> DeskView {
    if v.computing_templates.contains(code) || !has_template(v.templates, code) {
        v
    } else {
        DeskView {
            computing_templates: v.computing_templates.insert(code),
            cache_hits: v.cache_hits + row_hits(v.cache, code, v.requirements),
            cache_misses: v.cache_misses + row_misses(v.cache, code, v.requirements),
            ..v
        }
    }
}

/// The results of a finished job, in requirement order: the cached one,
/// else the solver's, else none for that requirement.
pub open spec fn merged(cached: Seq<Option<ResultView>>, solved: Seq<Option<ResultView>>) -> Seq<ResultView>
    decreases cached.len(),
{
    if cached.len() == 0 {
        seq![]
    } else {
        let rest = merged(cached.drop_last(), solved.drop_last());
        match cached.last() {
            Some(c) => rest.push(c),
            None => match solved.last() {
                Some(r) => rest.push(r),
                None => rest,
            },
        }
    }
}

/// The cache after a finished job: each result the solver supplied is
/// stored under its key.
pub open spec fn stored(
    cache: Map<Seq<char>, ResultView>,
    keys: Seq<Seq<char>>,
    cached: Seq<Option<ResultView>>,
    solved: Seq<Option<ResultView>>,
) -> Map<Seq<char>, ResultView>
    decreases cached.len(),
{
    if cached.len() == 0 {
        cache
    } else {
        let m = stored(cache, keys.drop_last(), cached.drop_last(), solved.drop_last());
        match cached.last() {
            Some(c) => m,
            None => match solved.last() {
                Some(r) => m.insert(keys.last(), crate::cache::as_cached(r)),
                None => m,
            },
        }
    }
}

/// The first row of the template `code` given the results `list`.
pub open spec fn replace_first_row(
    rows: Seq<(Seq<char>, Seq<ResultView>)>,
    code: Seq<char>,
    list: Seq<ResultView>,
) -> Seq<(Seq<char>, Seq<ResultView>)> {
    if exists|p: int| is_first_row(rows, code, p) {
        let p = first_row_index(rows, code);
        rows.update(p, (rows[p].0, list))
    } else {
        rows
    }
}

/// The status after a job, with the cache's hit count and rate.
pub open spec fn done_status(hits: nat, misses: nat) -> Seq<char> {
    "计算完成 · 本地缓存命中 "@ + crate::text::dec(hits) + " 次 ("@ + crate::cache::hit_rate_text(hits, misses) + ")"@
}

/// Taking back a finished job for the template `code`, handed out when
/// the cache's epoch was `epoch`. The solver's results are stored only
/// when the cache was not emptied since; the row is updated either way.
pub open spec fn after_finish_job(
    v: DeskView,
    code: Seq<char>,
    epoch: u64,
    keys: Seq<Seq<char>>,
    cached: Seq<Option<ResultView>>,
    solved: Seq<Option<ResultView>>,
) -> DeskView {
    DeskView {
        cache: if epoch == v.cache_epoch {
            stored(v.cache, keys, cached, solved)
        } else {
            v.cache
        },
        results: replace_first_row(v.results, code, merged(cached, solved)),
        computing_templates: v.computing_templates.remove(code),
        status_text: done_status(v.cache_hits, v.cache_misses),
        ..v
    }
}

fn contains_text(v: &Vec<String>, key: &String) -> (b: bool)
    ensures
        b == text_set(v@).contains(key@),
{
    let mut i: usize = 0;
    while i < v.len()
        invariant
            i <= v@.len(),
            forall|j: int| 0 <= j < i ==> (#[trigger] v@[j])@ != key@,
        decreases v.len() - i,
    {
        if v[i] == *key {
            assert(text_set(v@).contains(key@));
            return true;
        }
        i = i + 1;
    }
    false
}

fn without_text(v: &Vec<String>, key: &String) -> (r: Vec<String>)
    ensures
        text_set(r@) == text_set(v@).remove(key@),
{
    let ghost ev = v@;
    let mut kept: Vec<String> = Vec::new();
    let mut i: usize = 0;
    proof {
        assert(ev.take(0) =~= Seq::<String>::empty());
        lemma_text_set_empty(ev.take(0));
        lemma_text_set_empty(kept@);
        assert(text_set(ev.take(0)).remove(key@) =~= Set::<Seq<char>>::empty());
    }
    while i < v.len()
        invariant
            i <= ev.len(),
            v@ == ev,
            text_set(kept@) == text_set(ev.take(i as int)).remove(key@),
        decreases v.len() - i,
    {
        let item = v[i].clone();
        proof {
            assert(ev.take(i + 1) =~= ev.take(i as int).push(item));
            lemma_text_set_push(ev.take(i as int), item);
        }
        if item == *key {
            assert(text_set(ev.take(i + 1)).remove(key@) =~= text_set(ev.take(i as int)).remove(key@));
        } else {
            proof {
                lemma_text_set_push(kept@, item);
            }
            kept.push(item);
            assert(text_set(kept@) =~= text_set(ev.take(i + 1)).remove(key@));
        }
        i = i + 1;
    }
    assert(ev.take(ev.len() as int) =~= ev);
    kept
}

proof fn lemma_lookup_step(cache: Map<Seq<char>, ResultView>, code: Seq<char>, rv: Seq<ReqView>, j: int)
    requires
        0 <= j < rv.len(),
    ensures
        rv.take(j + 1).map_values(|r: ReqView| cache_key(code, r)) == rv.take(j).map_values(
            |r: ReqView| cache_key(code, r),
        ).push(cache_key(code, rv[j])),
        rv.take(j + 1).map_values(|r: ReqView| stored_for(cache, code, r)) == rv.take(j).map_values(
            |r: ReqView| stored_for(cache, code, r),
        ).push(stored_for(cache, code, rv[j])),
{
    assert(rv.take(j + 1).map_values(|r: ReqView| cache_key(code, r)) =~= rv.take(j).map_values(
        |r: ReqView| cache_key(code, r),
    ).push(cache_key(code, rv[j])));
    assert(rv.take(j + 1).map_values(|r: ReqView| stored_for(cache, code, r)) =~= rv.take(j).map_values(
        |r: ReqView| stored_for(cache, code, r),
    ).push(stored_for(cache, code, rv[j])));
}

fn lookup_all(cache: &mut ImpedanceCache, code: &String, reqs: &Vec<ImpedanceReq>) -> (r: (Vec<String>, Vec<Option<ImpedanceResult>>))
    requires
        old(cache).hit_count() + old(cache).miss_count() + reqs@.len() <= usize::MAX,
    ensures
        final(cache).contents() == old(cache).contents(),
        texts(r.0@) == reqs_view(reqs@).map_values(|q: ReqView| cache_key(code@, q)),
        opt_results_view(r.1@) == reqs_view(reqs@).map_values(|q: ReqView| stored_for(old(cache).contents(), code@, q)),
        final(cache).hit_count() == old(cache).hit_count() + row_hits(old(cache).contents(), code@, reqs_view(reqs@)),
        final(cache).miss_count() == old(cache).miss_count() + row_misses(old(cache).contents(), code@, reqs_view(reqs@)),
{
    let ghost c0 = cache.contents();
    let ghost h0 = cache.hit_count();
    let ghost m0 = cache.miss_count();
    let ghost rv = reqs_view(reqs@);
    let mut keys: Vec<String> = Vec::new();
    let mut found: Vec<Option<ImpedanceResult>> = Vec::new();
    let mut j: usize = 0;
    assert(rv.take(0) =~= Seq::<ReqView>::empty());
    assert(texts(keys@) =~= rv.take(0).map_values(|q: ReqView| cache_key(code@, q)));
    assert(opt_results_view(found@) =~= rv.take(0).map_values(|q: ReqView| stored_for(c0, code@, q)));
    while j < reqs.len()
        invariant
            j <= reqs@.len(),
            rv == reqs_view(reqs@),
            cache.contents() == c0,
            h0 + m0 + reqs@.len() <= usize::MAX,
            texts(keys@) == rv.take(j as int).map_values(|q: ReqView| cache_key(code@, q)),
            opt_results_view(found@) == rv.take(j as int).map_values(|q: ReqView| stored_for(c0, code@, q)),
            cache.hit_count() == h0 + row_hits(c0, code@, rv.take(j as int)),
            cache.miss_count() == m0 + row_misses(c0, code@, rv.take(j as int)),
        decreases reqs.len() - j,
    {
        let req = &reqs[j];
        let key = ImpedanceCache::generate_key(code.as_str(), req);
        proof {
            assert(rv[j as int] == req@);
            lemma_lookup_step(c0, code@, rv, j as int);
            lemma_lookup_row_step(c0, code@, rv, j as int);
            lemma_row_counts(c0, code@, rv.take(j as int));
            assert(rv.take(j as int).len() == j);
        }
        let got = cache.get(key.as_str());
        assert(opt_result_view(got) == stored_for(c0, code@, req@));
        let ghost kv = texts(keys@);
        let ghost fv = opt_results_view(found@);
        let k2 = key.clone();
        keys.push(k2);
        found.push(got);
        assert(texts(keys@) =~= kv.push(key@));
        assert(opt_results_view(found@) =~= fv.push(opt_result_view(got)));
        j = j + 1;
    }
    assert(rv.take(reqs@.len() as int) =~= rv);
    (keys, found)
}

fn clone_reqs(v: &Vec<ImpedanceReq>) -> (r: Vec<ImpedanceReq>)
    ensures
        reqs_view(r@) == reqs_view(v@),
{
    let mut out: Vec<ImpedanceReq> = Vec::new();
    let mut i: usize = 0;
    while i < v.len()
        invariant
            i <= v@.len(),
            out@.len() == i,
            forall|j: int| 0 <= j < i ==> (#[trigger] out@[j])@ == v@[j]@,
        decreases v.len() - i,
    {
        out.push(v[i].clone());
        i = i + 1;
    }
    assert(reqs_view(out@) =~= reqs_view(v@));
    out
}

impl ImpedanceDesktopApp {
    /// Hands the template `tmpl_code` to the background for solving, when
    /// it is not being solved already and is known (see `after_start_job`).
    pub fn calc_template_on_demand(&mut self, tmpl_code: &str) -> (r: Option<TemplateJob>)
        requires
            counters_room(old(self)@, old(self)@.requirements.len()),
        ensures
            final(self)@ == after_start_job(old(self)@, tmpl_code@),
            r is Some <==> !old(self)@.computing_templates.contains(tmpl_code@) && has_template(
                old(self)@.templates,
                tmpl_code@,
            ),
            r matches Some(job) ==> job_for(job, old(self)@, tmpl_code@),
    {
        let ghost v = self@;
        let code = String::from_str(tmpl_code);
        if contains_text(&self.computing_templates, &code) {
            return None;
        }
        let mut p: usize = 0;
        while p < self.templates.len() && self.templates[p].code != code
            invariant
                p <= self.templates@.len(),
                v == self@,
                forall|j: int| 0 <= j < p ==> v.templates[j].code != code@,
            decreases self.templates.len() - p,
        {
            p = p + 1;
        }
        if p == self.templates.len() {
            return None;
        }
        proof {
            assert(is_first_template(v.templates, code@, p as int));
            let q = first_template_index(v.templates, code@);
            assert(is_first_template(v.templates, code@, q));
            if q < p {
            } else if q > p {
                assert(v.templates[p as int].code == code@);
            }
            assert(q == p);
        }
        let template = self.templates[p].clone();
        let requests = clone_reqs(&self.requirements);
        let mut cache = ImpedanceCache::new();
        std::mem::swap(&mut cache, &mut self.cache);
        let (keys, cached) = lookup_all(&mut cache, &code, &self.requirements);
        self.cache = cache;
        proof {
            lemma_text_set_push(self.computing_templates@, code);
        }
        self.computing_templates.push(code.clone());
        assert(self@.expanded_templates =~= v.expanded_templates);
        Some(TemplateJob { code, template, requests, keys, cached, uuid: self.uuid.clone(), epoch: self.cache_epoch })
    }
}

/// A row waits for the solver when one of its results is pending.
pub open spec fn row_pending(row: Seq<ResultView>) -> bool {
    exists|i: int| 0 <= i < row.len() && (#[trigger] row[i]).is_loading
}

/// Whether a shown row still waits for the solver, so that its card is
/// handed to `calc_template_on_demand` when it comes into view.
pub fn row_is_loading(row: &Vec<ImpedanceResult>) -> (b: bool)
    ensures
        b == row_pending(results_view(row@)),
{
    let ghost rv = results_view(row@);
    let mut i: usize = 0;
    while i < row.len()
        invariant
            i <= row@.len(),
            rv == results_view(row@),
            forall|j: int| 0 <= j < i ==> !(#[trigger] rv[j]).is_loading,
        decreases row.len() - i,
    {
        if row[i].is_loading {
            assert(rv[i as int].is_loading);
            return true;
        }
        i = i + 1;
    }
    false
}

proof fn lemma_merge_step(
    cache: Map<Seq<char>, ResultView>,
    keys: Seq<Seq<char>>,
    cached: Seq<Option<ResultView>>,
    solved: Seq<Option<ResultView>>,
    i: int,
)
    requires
        0 <= i < cached.len(),
        keys.len() == cached.len(),
        solved.len() == cached.len(),
    ensures
        merged(cached.take(i + 1), solved.take(i + 1)) == match cached[i] {
            Some(c) => merged(cached.take(i), solved.take(i)).push(c),
            None => match solved[i] {
                Some(r) => merged(cached.take(i), solved.take(i)).push(r),
                None => merged(cached.take(i), solved.take(i)),
            },
        },
        stored(cache, keys.take(i + 1), cached.take(i + 1), solved.take(i + 1)) == match cached[i] {
            Some(c) => stored(cache, keys.take(i), cached.take(i), solved.take(i)),
            None => match solved[i] {
                Some(r) => stored(cache, keys.take(i), cached.take(i), solved.take(i)).insert(
                    keys[i],
                    crate::cache::as_cached(r),
                ),
                None => stored(cache, keys.take(i), cached.take(i), solved.take(i)),
            },
        },
{
    assert(cached.take(i + 1).drop_last() =~= cached.take(i));
    assert(solved.take(i + 1).drop_last() =~= solved.take(i));
    assert(keys.take(i + 1).drop_last() =~= keys.take(i));
}

proof fn lemma_replace_first_found(rows: Seq<(Seq<char>, Seq<ResultView>)>, code: Seq<char>, p: int, list: Seq<ResultView>)
    requires
        is_first_row(rows, code, p),
    ensures
        replace_first_row(rows, code, list) == rows.update(p, (rows[p].0, list)),
{
    let q = first_row_index(rows, code);
    assert(is_first_row(rows, code, q));
    if q < p {
        assert(rows[q].0 == code);
    } else if q > p {
        assert(rows[p].0 == code);
    }
}

impl ImpedanceDesktopApp {
    /// Takes back a finished job: `solved[i]` is what the solver gave for
    /// requirement `i` (consulted only where the job had nothing cached).
    /// The solver's results are stored, the template's first row shows
    /// the job's results, the template is no longer being solved, and the
    /// status reports the cache's hits and rate.
    pub fn finish_template_calc(&mut self, job: TemplateJob, solved: Vec<Option<ImpedanceResult>>)
        requires
            job.keys@.len() == job.cached@.len(),
            solved@.len() == job.cached@.len(),
        ensures
            final(self)@ == after_finish_job(
                old(self)@,
                job.code@,
                job.epoch,
                texts(job.keys@),
                opt_results_view(job.cached@),
                opt_results_view(solved@),
            ),
    {
        let ghost v = self@;
        let ghost kv = texts(job.keys@);
        let ghost cv = opt_results_view(job.cached@);
        let ghost sv = opt_results_view(solved@);
        let current = job.epoch == self.cache_epoch;
        let mut list: Vec<ImpedanceResult> = Vec::new();
        let mut i: usize = 0;
        proof {
            assert(cv.take(0) =~= Seq::<Option<ResultView>>::empty());
            assert(sv.take(0) =~= Seq::<Option<ResultView>>::empty());
            assert(kv.take(0) =~= Seq::<Seq<char>>::empty());
            assert(results_view(list@) =~= Seq::<ResultView>::empty());
        }
        while i < job.cached.len()
            invariant
                i <= job.cached@.len(),
                job.keys@.len() == job.cached@.len(),
                solved@.len() == job.cached@.len(),
                kv == texts(job.keys@),
                cv == opt_results_view(job.cached@),
                sv == opt_results_view(solved@),
                current == (job.epoch == v.cache_epoch),
                self.cache.contents() == if current {
                    stored(v.cache, kv.take(i as int), cv.take(i as int), sv.take(i as int))
                } else {
                    v.cache
                },
                self.cache.hit_count() == v.cache_hits,
                self.cache.miss_count() == v.cache_misses,
                results_view(list@) == merged(cv.take(i as int), sv.take(i as int)),
                self@ == (DeskView { cache: self.cache.contents(), ..v }),
            decreases job.cached.len() - i,
        {
            proof {
                lemma_merge_step(v.cache, kv, cv, sv, i as int);
            }
            let ghost before = results_view(list@);
            match &job.cached[i] {
                Some(c) => {
                    let item = c.clone();
                    list.push(item);
                    assert(results_view(list@) =~= before.push(item@));
                },
                None => match &solved[i] {
                    Some(r) => {
                        if current {
                            self.cache.set(job.keys[i].clone(), r.clone());
                        }
                        let item = r.clone();
                        list.push(item);
                        assert(results_view(list@) =~= before.push(item@));
                    },
                    None => {},
                },
            }
            assert(self@.expanded_templates =~= v.expanded_templates);
            assert(self@.computing_templates =~= v.computing_templates);
            i = i + 1;
        }
        assert(cv.take(cv.len() as int) =~= cv);
        assert(sv.take(sv.len() as int) =~= sv);
        assert(kv.take(kv.len() as int) =~= kv);
        let ghost lv = results_view(list@);
        let ghost rv = rows_view(self.results@);
        let mut p: usize = 0;
        while p < self.results.len() && self.results[p].0 != job.code
            invariant
                p <= self.results@.len(),
                rv == rows_view(self.results@),
                forall|j: int| 0 <= j < p ==> rv[j].0 != job.code@,
            decreases self.results.len() - p,
        {
            p = p + 1;
        }
        if p < self.results.len() {
            proof {
                assert(is_first_row(rv, job.code@, p as int));
                lemma_replace_first_found(rv, job.code@, p as int, lv);
            }
            let row_code = self.results[p].0.clone();
            self.results.set(p, (row_code, list));
            assert(rows_view(self.results@) =~= rv.update(p as int, (rv[p as int].0, lv)));
        } else {
            assert(!exists|q: int| is_first_row(rv, job.code@, q));
        }
        self.computing_templates = without_text(&self.computing_templates, &job.code);
        let (hits, misses, rate) = self.cache.stats();
        proof {
            reveal_strlit("计算完成 · 本地缓存命中 ");
            reveal_strlit(" 次 (");
            reveal_strlit(")");
        }
        let mut status = String::from_str("计算完成 · 本地缓存命中 ");
        crate::text::push_dec(&mut status, hits as u64);
        status.append(" 次 (");
        status.append(rate.as_str());
        status.append(")");
        self.status_text = status;
        assert(self@.status_text =~= done_status(v.cache_hits, v.cache_misses));
        assert(self@.expanded_templates =~= v.expanded_templates);
    }
}

} // verus!
