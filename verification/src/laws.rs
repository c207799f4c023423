//! Properties of the desk that span several operations.
use vstd::prelude::*;

use crate::cache::{
    as_cached, cache_key, key_parts, lemma_joined_injective, lemma_key_joined,
    lemma_numbers_no_underscore, no_underscore,
};
use crate::text::{debug_opt_count, debug_opt_milli, dec, display_milli, fixed3};
use crate::desk::{
    after_adjust, after_clear_cache, after_delete, after_finish_job, after_pin, after_toggle_dropdown,
    after_toggle_expand, after_begin_edit, after_key, after_set_layer, after_add_preset, build_rows, commit, editor_text, first_row_index, is_first_row, lookup_row, pin_first,
    recalc, recommended, stored, target_codes, DeskView,
};
use crate::models::{ReqView, ResultView, TemplateView};

verus! {

/// A result stored under a key is what a later lookup of that key gives
/// back, marked as coming from the cache (`ImpedanceCache::set`, then
/// `ImpedanceCache::get`).
pub proof fn law_get_after_set(before: Map<Seq<char>, ResultView>, key: Seq<char>, r: ResultView)
    ensures
        before.insert(key, as_cached(r)).dom().contains(key),
        before.insert(key, as_cached(r))[key] == as_cached(r),
{
}

/// Storing a result under one key leaves what every other key gives
/// back unchanged.
pub proof fn law_set_keeps_other_keys(
    before: Map<Seq<char>, ResultView>,
    key: Seq<char>,
    r: ResultView,
    other: Seq<char>,
)
    requires
        other != key,
    ensures
        before.insert(key, as_cached(r)).dom().contains(other) == before.dom().contains(other),
        before.dom().contains(other) ==> before.insert(key, as_cached(r))[other] == before[other],
{
}

proof fn lemma_debug_opt_count_injective(a: Option<u32>, b: Option<u32>)
    requires
        debug_opt_count(a) == debug_opt_count(b),
    ensures
        a == b,
{
    match (a, b) {
        (Some(x), Some(y)) => {
            let s = debug_opt_count(a);
            assert(dec(x as nat) =~= s.subrange(5, s.len() - 1));
            assert(dec(y as nat) =~= debug_opt_count(b).subrange(5, s.len() - 1));
            crate::text::lemma_dec_reads_back(x as nat);
            crate::text::lemma_dec_reads_back(y as nat);
        },
        (Some(x), None) => {
            assert(debug_opt_count(a)[0] != debug_opt_count(b)[0]);
        },
        (None, Some(y)) => {
            assert(debug_opt_count(a)[0] != debug_opt_count(b)[0]);
        },
        (None, None) => {},
    }
}

/// Equal cache keys come from the same request: when neither stack-up
/// code nor mode holds a `_`, two equal keys have equal codes, ids,
/// modes, layers and reference planes, and their target, tolerance,
/// width, spacing and gap print alike.
#[verifier::spinoff_prover]
#[verifier::rlimit(60)]
pub proof fn law_key_identifies_request(c1: Seq<char>, r1: ReqView, c2: Seq<char>, r2: ReqView)
    requires
        cache_key(c1, r1) == cache_key(c2, r2),
        no_underscore(c1),
        no_underscore(c2),
        no_underscore(r1.mode),
        no_underscore(r2.mode),
    ensures
        c1 == c2,
        r1.id == r2.id,
        r1.mode == r2.mode,
        r1.layer == r2.layer,
        r1.up_ref == r2.up_ref,
        r1.down_ref == r2.down_ref,
        fixed3(r1.target_zo as nat) == fixed3(r2.target_zo as nat),
        display_milli(r1.tolerance as nat) == display_milli(r2.tolerance as nat),
        fixed3(r1.w1 as nat) == fixed3(r2.w1 as nat),
        debug_opt_milli(r1.s1) == debug_opt_milli(r2.s1),
        debug_opt_milli(r1.d1) == debug_opt_milli(r2.d1),
{
    lemma_key_joined(c1, r1);
    lemma_key_joined(c2, r2);
    let p = key_parts(c1, r1);
    let q = key_parts(c2, r2);
    lemma_numbers_no_underscore(r1.target_zo as nat, r1.up_ref);
    lemma_numbers_no_underscore(r2.target_zo as nat, r2.up_ref);
    lemma_numbers_no_underscore(r1.layer as nat, r1.down_ref);
    lemma_numbers_no_underscore(r2.layer as nat, r2.down_ref);
    lemma_numbers_no_underscore(r1.tolerance as nat, r1.s1);
    lemma_numbers_no_underscore(r2.tolerance as nat, r2.s1);
    lemma_numbers_no_underscore(r1.w1 as nat, r1.d1);
    lemma_numbers_no_underscore(r2.w1 as nat, r2.d1);
    assert forall|i: int| 0 <= i < p.len() && i != 1 implies no_underscore(#[trigger] p[i]) && no_underscore(q[i]) by {
        assert(i == 0 || i == 2 || i == 3 || i == 4 || i == 5 || i == 6 || i == 7 || i == 8 || i == 9
            || i == 10);
    }
    lemma_joined_injective(p, q);
    assert(p[0] == q[0] && p[1] == q[1] && p[3] == q[3]);
    assert(p[2] == q[2] && p[4] == q[4] && p[5] == q[5] && p[6] == q[6] && p[7] == q[7]);
    assert(p[8] == q[8] && p[9] == q[9] && p[10] == q[10]);
    crate::text::lemma_dec_reads_back(r1.layer as nat);
    crate::text::lemma_dec_reads_back(r2.layer as nat);
    lemma_debug_opt_count_injective(r1.up_ref, r2.up_ref);
    lemma_debug_opt_count_injective(r1.down_ref, r2.down_ref);
}

/// Moving the pinned template's row to the front only reorders the rows,
/// and puts that row first whenever there is one.
pub proof fn law_pin_first_reorders(rows: Seq<(Seq<char>, Seq<ResultView>)>, pinned: Option<Seq<char>>)
    ensures
        pin_first(rows, pinned).to_multiset() == rows.to_multiset(),
        pinned matches Some(code) ==> (exists|p: int| is_first_row(rows, code, p)) ==> pin_first(rows, pinned)[0].0 == code,
{
    broadcast use vstd::multiset::group_multiset_axioms, vstd::seq_lib::group_to_multiset_ensures;

    match pinned {
        None => {},
        Some(code) => {
            if exists|p: int| is_first_row(rows, code, p) {
                let p = first_row_index(rows, code);
                assert(is_first_row(rows, code, p));
                let rest = rows.remove(p);
                vstd::seq_lib::lemma_multiset_commutative(seq![rows[p]], rest);
                assert(rows =~= rows.take(p) + rows.skip(p));
                assert(rest =~= rows.take(p) + rows.skip(p + 1));
                assert(rows.skip(p) =~= seq![rows[p]] + rows.skip(p + 1));
                vstd::seq_lib::lemma_multiset_commutative(rows.take(p), rows.skip(p));
                vstd::seq_lib::lemma_multiset_commutative(rows.take(p), rows.skip(p + 1));
                vstd::seq_lib::lemma_multiset_commutative(seq![rows[p]], rows.skip(p + 1));
                assert(pin_first(rows, pinned) =~= seq![rows[p]] + rest);
            }
        },
    }
}

/// Pinning a shown template puts its row first; pinning it again unpins
/// it (with no impedance edit open).
pub proof fn law_pin_twice(v: DeskView, code: Seq<char>)
    requires
        v.editing_zo is None,
        v.pinned_template != Some(code),
    ensures
        after_pin(v, code).pinned_template == Some(code),
        (exists|p: int| is_first_row(v.results, code, p)) ==> after_pin(v, code).results[0].0 == code,
        after_pin(after_pin(v, code), code).pinned_template is None,
{
    law_pin_first_reorders(v.results, Some(code));
}

/// Pinning the same template twice (with no impedance edit open, and no
/// other template pinned before) restores the pin and only reorders the
/// rows; nothing else changes.
pub proof fn law_pin_twice_restores(v: DeskView, code: Seq<char>)
    requires
        v.editing_zo is None,
        v.pinned_template is None || v.pinned_template == Some(code),
    ensures
        after_pin(after_pin(v, code), code).pinned_template == v.pinned_template,
        after_pin(after_pin(v, code), code).results.to_multiset() == v.results.to_multiset(),
        after_pin(after_pin(v, code), code) == (DeskView {
            results: after_pin(after_pin(v, code), code).results,
            ..v
        }),
{
    let once = after_pin(v, code);
    law_pin_first_reorders(v.results, once.pinned_template);
    law_pin_first_reorders(once.results, after_pin(once, code).pinned_template);
}

/// Opening and closing the same material list leaves the open lists as
/// they were.
pub proof fn law_toggle_expand_twice(v: DeskView, code: Seq<char>)
    ensures
        after_toggle_expand(after_toggle_expand(v, code), code) == v,
{
    let once = after_toggle_expand(v, code);
    let twice = after_toggle_expand(once, code);
    if v.expanded_templates.contains(code) {
        assert(twice.expanded_templates =~= v.expanded_templates);
    } else {
        assert(twice.expanded_templates =~= v.expanded_templates);
    }
    assert(twice == v);
}

/// Toggling the same drop-down twice (with no impedance edit open)
/// leaves the open drop-down as it was, or closes it when it was this one.
pub proof fn law_toggle_dropdown_twice(v: DeskView, id: Seq<char>)
    requires
        v.editing_zo is None,
    ensures
        after_toggle_dropdown(after_toggle_dropdown(v, id), id).active_dropdown == if v.active_dropdown
            == Some(id) {
            Some(id)
        } else {
            None
        },
{
}

/// However the target is moved with the buttons, it stays between 10
/// and 200 ohm.
pub proof fn law_adjust_in_range(v: DeskView, idx: usize, delta: i32)
    requires
        idx < v.requirements.len(),
    ensures
        10_000 <= after_adjust(v, idx, delta).requirements[idx as int].target_zo <= 200_000,
{
    crate::desk::lemma_commit_frame(v);
    let c = commit(v);
    let w = crate::desk::with_req(
        c,
        idx as int,
        crate::models::ReqView {
            target_zo: crate::desk::clamp_zo(c.requirements[idx as int].target_zo + delta),
            ..c.requirements[idx as int]
        },
    );
    crate::desk::lemma_recalc_frame(w);
}

/// Deleting never leaves the desk without a requirement.
pub proof fn law_delete_keeps_one(v: DeskView, idx: usize)
    requires
        v.requirements.len() >= 1,
        v.requirements.len() > 1 ==> idx < v.requirements.len(),
    ensures
        after_delete(v, idx).requirements.len() >= 1,
{
    crate::desk::lemma_commit_frame(v);
    let c = crate::desk::dropdown_closed(v);
    if c.requirements.len() > 1 {
        let w = DeskView { requirements: c.requirements.remove(idx as int), ..c };
        crate::desk::lemma_recalc_frame(w);
    }
}

/// The cache statistics over a rebuild: every shown result is one
/// lookup; the hits grow by the lookups that found a stored result, the
/// misses by the others, so together they grow by the number of shown
/// results.
pub proof fn law_rebuild_counts_lookups(v: DeskView)
    requires
        v.templates.len() > 0,
    ensures
        ({
            let codes = target_codes(v.templates, v.calc_strategy);
            &&& recalc(v).cache_hits == v.cache_hits + crate::desk::all_hits(v.cache, codes, v.requirements)
            &&& recalc(v).cache_misses == v.cache_misses + crate::desk::all_misses(v.cache, codes, v.requirements)
            &&& crate::desk::all_hits(v.cache, codes, v.requirements) + crate::desk::all_misses(
                v.cache,
                codes,
                v.requirements,
            ) == codes.len() * v.requirements.len()
        }),
{
    crate::desk::lemma_all_counts(v.cache, target_codes(v.templates, v.calc_strategy), v.requirements);
}

/// After a rebuild every shown row holds exactly one result per
/// requirement, in requirement order; under `"RECOMMENDED_ONLY"` at most
/// two rows are shown, each of a recommended template.
pub proof fn law_rebuild_shape(v: DeskView)
    requires
        v.templates.len() > 0,
    ensures
        recalc(v).results.len() == target_codes(v.templates, v.calc_strategy).len(),
        forall|i: int|
            0 <= i < recalc(v).results.len() ==> (#[trigger] recalc(v).results[i]).1.len() == v.requirements.len(),
        v.calc_strategy == "RECOMMENDED_ONLY"@ ==> recalc(v).results.len() <= 2,
        v.calc_strategy == "RECOMMENDED_ONLY"@ ==> forall|i: int|
            0 <= i < recommended(v.templates).len() ==> (#[trigger] recommended(v.templates)[i]).is_common,
{
    let codes = target_codes(v.templates, v.calc_strategy);
    let rows = build_rows(v.cache, codes, v.requirements);
    law_pin_first_reorders(rows, v.pinned_template);
    assert forall|i: int| 0 <= i < recalc(v).results.len() implies (#[trigger] recalc(v).results[i]).1.len()
        == v.requirements.len() by {
        let out = recalc(v).results;
        assert(out.to_multiset().count(out[i]) > 0) by {
            broadcast use vstd::seq_lib::group_to_multiset_ensures;

        }
        assert(rows.to_multiset().count(out[i]) > 0);
        assert(rows.contains(out[i])) by {
            broadcast use vstd::seq_lib::group_to_multiset_ensures;

        }
        let j = choose|j: int| 0 <= j < rows.len() && rows[j] == out[i];
        assert(rows[j].1 == lookup_row(v.cache, codes[j], v.requirements));
    }
    assert(recalc(v).results.len() == rows.len()) by {
        broadcast use vstd::seq_lib::group_to_multiset_ensures;

    }
    if v.calc_strategy == "RECOMMENDED_ONLY"@ {
        let pred = |t: TemplateView| t.is_common;
        let f = v.templates.filter(pred);
        assert forall|i: int| 0 <= i < recommended(v.templates).len() implies (#[trigger] recommended(
            v.templates,
        )[i]).is_common by {
            v.templates.lemma_filter_pred(pred, i);
        }
    }
}

/// A result the solver supplied for a requirement that had nothing
/// cached is, after the job is taken back, what the cache gives for that
/// requirement's key (when no two of the job's keys coincide and the
/// cache was not emptied since the job was handed out).
pub proof fn law_finished_results_are_cached(
    v: DeskView,
    code: Seq<char>,
    keys: Seq<Seq<char>>,
    cached: Seq<Option<ResultView>>,
    solved: Seq<Option<ResultView>>,
    i: int,
)
    requires
        keys.len() == cached.len(),
        solved.len() == cached.len(),
        0 <= i < cached.len(),
        forall|a: int, b: int| 0 <= a < b < keys.len() ==> keys[a] != keys[b],
        cached[i] is None,
        solved[i] is Some,
    ensures
        after_finish_job(v, code, v.cache_epoch, keys, cached, solved).cache.dom().contains(keys[i]),
        after_finish_job(v, code, v.cache_epoch, keys, cached, solved).cache[keys[i]] == as_cached(
            solved[i]->0,
        ),
    decreases cached.len(),
{
    lemma_stored_keeps(v.cache, keys, cached, solved, i);
}

proof fn lemma_stored_keeps(
    cache: Map<Seq<char>, ResultView>,
    keys: Seq<Seq<char>>,
    cached: Seq<Option<ResultView>>,
    solved: Seq<Option<ResultView>>,
    i: int,
)
    requires
        keys.len() == cached.len(),
        solved.len() == cached.len(),
        0 <= i < cached.len(),
        forall|a: int, b: int| 0 <= a < b < keys.len() ==> keys[a] != keys[b],
        cached[i] is None,
        solved[i] is Some,
    ensures
        stored(cache, keys, cached, solved).dom().contains(keys[i]),
        stored(cache, keys, cached, solved)[keys[i]] == as_cached(solved[i]->0),
    decreases cached.len(),
{
    let n = cached.len() - 1;
    if i < n {
        let k2 = keys.drop_last();
        assert(k2[i] == keys[i]);
        assert(cached.drop_last()[i] == cached[i]);
        assert(solved.drop_last()[i] == solved[i]);
        lemma_stored_keeps(cache, k2, cached.drop_last(), solved.drop_last(), i);
        assert(keys[n] != keys[i]);
    }
}

/// Emptying the cache while a job is out keeps the job's results out of
/// the new cache: taking the job back afterwards leaves the cache empty.
pub proof fn law_clear_discards_running_jobs(
    v: DeskView,
    code: Seq<char>,
    keys: Seq<Seq<char>>,
    cached: Seq<Option<ResultView>>,
    solved: Seq<Option<ResultView>>,
)
    requires
        v.cache_epoch < u64::MAX,
    ensures
        after_finish_job(after_clear_cache(v), code, v.cache_epoch, keys, cached, solved).cache
            == Map::<Seq<char>, ResultView>::empty(),
{
}

/// At most five bytes of UTF-8 and at most one `.`.
pub open spec fn short_with_one_dot(s: Seq<char>) -> bool {
    &&& vstd::utf8::encode_utf8(s).len() <= 5
    &&& forall|i: int, j: int| 0 <= i < j < s.len() && #[trigger] s[i] == '.' ==> #[trigger] s[j] != '.'
}

proof fn lemma_encode_concat(a: Seq<char>, b: Seq<char>)
    ensures
        vstd::utf8::encode_utf8(a + b) == vstd::utf8::encode_utf8(a) + vstd::utf8::encode_utf8(b),
    decreases a.len(),
{
    if a.len() == 0 {
        assert(a + b =~= b);
        assert(vstd::utf8::encode_utf8(a) =~= Seq::<u8>::empty());
        assert(Seq::<u8>::empty() + vstd::utf8::encode_utf8(b) =~= vstd::utf8::encode_utf8(b));
    } else {
        assert((a + b)[0] == a[0]);
        assert((a + b).drop_first() =~= a.drop_first() + b);
        lemma_encode_concat(a.drop_first(), b);
        let h = vstd::utf8::encode_scalar(a[0] as u32);
        assert(vstd::utf8::encode_utf8(a + b) == h + vstd::utf8::encode_utf8(a.drop_first() + b));
        assert(h + (vstd::utf8::encode_utf8(a.drop_first()) + vstd::utf8::encode_utf8(b)) =~= (h
            + vstd::utf8::encode_utf8(a.drop_first())) + vstd::utf8::encode_utf8(b));
    }
}

/// Whatever text the impedance editor holds, typing a key into it keeps
/// it within five bytes with at most one `.`, when it was so before.
pub proof fn law_editor_bytes_kept(v: DeskView, idx: usize, key: Seq<char>)
    requires
        v.editing_zo matches Some(e) ==> short_with_one_dot(e.1),
    ensures
        after_key(v, idx, key).editing_zo matches Some(e) ==> short_with_one_dot(e.1),
{
    broadcast use vstd::utf8::is_ascii_chars_encode_utf8;

    match v.editing_zo {
        Some(e) => if e.0 == idx {
            let t = e.1;
            if key.len() == 1 && crate::text::is_digit(key[0]) {
                let n = t + key;
                lemma_encode_concat(t, key);
                assert(vstd::utf8::is_ascii_chars(key));
                assert forall|i: int, j: int| 0 <= i < j < n.len() && #[trigger] n[i] == '.' implies #[trigger] n[j] != '.' by {
                    if j < t.len() {
                        assert(n[i] == t[i]);
                        assert(n[j] == t[j]);
                    } else {
                        assert(n[j] == key[0]);
                    }
                }
            } else if key == "."@ {
                let n = t.push('.');
                assert(n =~= t + seq!['.']);
                lemma_encode_concat(t, seq!['.']);
                assert(vstd::utf8::is_ascii_chars(seq!['.']));
                if !t.contains('.') {
                    assert forall|i: int, j: int| 0 <= i < j < n.len() && #[trigger] n[i] == '.' implies #[trigger] n[j] != '.' by {
                        assert(n[i] == t[i]);
                        assert(t[i] != '.');
                    }
                }
            } else if key == "backspace"@ {
                if t.len() > 0 {
                    let n = t.drop_last();
                    assert(t =~= n + seq![t.last()]);
                    lemma_encode_concat(n, seq![t.last()]);
                    assert forall|i: int, j: int| 0 <= i < j < n.len() && #[trigger] n[i] == '.' implies #[trigger] n[j] != '.' by {
                        assert(n[i] == t[i]);
                        assert(n[j] == t[j]);
                    }
                }
            } else if key == "enter"@ || key == "return"@ {
                crate::desk::lemma_commit_frame(v);
            }
        },
        None => {},
    }
}

/// The impedance editor only ever holds editor text: opening it on a
/// requirement whose target rounds to at most 99999 ohm, and typing any
/// key into it, keep the text within five characters, digits and at most
/// one `.` with at most three characters after it.
pub proof fn law_editor_text_kept(v: DeskView, idx: usize, key: Seq<char>)
    requires
        v.editing_zo matches Some(e) ==> editor_text(e.1),
    ensures
        after_key(v, idx, key).editing_zo matches Some(e) ==> editor_text(e.1),
        idx < v.requirements.len() && v.requirements[idx as int].target_zo < 99_999_500 ==> (after_begin_edit(
            v,
            idx,
        ).editing_zo matches Some(e) && editor_text(e.1)),
{
    broadcast use vstd::utf8::is_ascii_chars_encode_utf8;

    if idx < v.requirements.len() && v.requirements[idx as int].target_zo < 99_999_500 {
        let m = v.requirements[idx as int].target_zo as nat;
        let k = crate::text::round_half_even(m, 1000);
        assert(k <= 99_999) by (nonlinear_arith)
            requires
                m < 99_999_500,
                k == crate::text::round_half_even(m, 1000),
        {
        }
        crate::text::lemma_dec_reads_back(k);
        assert(crate::text::ten_pow(5) == 100_000) by {
            reveal_with_fuel(crate::text::ten_pow, 6);
        }
        crate::text::lemma_dec_len(k, 5);
    }
    match v.editing_zo {
        Some(e) => if e.0 == idx {
            let t = e.1;
            assert(vstd::utf8::is_ascii_chars(t)) by {
                assert forall|i: int| 0 <= i < t.len() implies '\0' <= #[trigger] t[i] <= '\u{7f}' by {
                    assert(crate::text::is_digit(t[i]) || t[i] == '.');
                }
            }
            if key.len() == 1 && crate::text::is_digit(key[0]) {
                let n = t + key;
                if t.len() < 4 {
                    assert forall|i: int| 0 <= i < n.len() implies crate::text::is_digit(#[trigger] n[i]) || n[i] == '.' by {
                        if i < t.len() {
                            assert(n[i] == t[i]);
                        }
                    }
                    assert forall|i: int, j: int| 0 <= i < j < n.len() && #[trigger] n[i] == '.' implies #[trigger] n[j] != '.' by {
                        assert(n[i] == t[i]);
                        if j < t.len() {
                            assert(n[j] == t[j]);
                        }
                    }
                    assert forall|i: int| 0 <= i < n.len() && #[trigger] n[i] == '.' implies n.len() - i - 1 <= 3 by {
                        if i < t.len() {
                            assert(n[i] == t[i]);
                        }
                    }
                }
            } else if key == "."@ {
                let n = t.push('.');
                if !t.contains('.') && t.len() < 5 {
                    assert forall|i: int| 0 <= i < n.len() implies crate::text::is_digit(#[trigger] n[i]) || n[i] == '.' by {
                        if i < t.len() {
                            assert(n[i] == t[i]);
                        }
                    }
                    assert forall|i: int, j: int| 0 <= i < j < n.len() && #[trigger] n[i] == '.' implies #[trigger] n[j] != '.' by {
                        assert(n[i] == t[i]);
                        assert(!t.contains('.'));
                        assert(t[i] != '.');
                    }
                    assert forall|i: int| 0 <= i < n.len() && #[trigger] n[i] == '.' implies n.len() - i - 1 <= 3 by {
                        if i < t.len() {
                            assert(n[i] == t[i]);
                            assert(t[i] != '.');
                        }
                    }
                }
            } else if key == "backspace"@ {
                if t.len() > 0 {
                    let n = t.drop_last();
                    assert forall|i: int| 0 <= i < n.len() implies crate::text::is_digit(#[trigger] n[i]) || n[i] == '.' by {
                        assert(n[i] == t[i]);
                    }
                    assert forall|i: int, j: int| 0 <= i < j < n.len() && #[trigger] n[i] == '.' implies #[trigger] n[j] != '.' by {
                        assert(n[i] == t[i]);
                        assert(n[j] == t[j]);
                    }
                    assert forall|i: int| 0 <= i < n.len() && #[trigger] n[i] == '.' implies n.len() - i - 1 <= 3 by {
                        assert(n[i] == t[i]);
                    }
                }
            } else if key == "enter"@ || key == "return"@ {
                crate::desk::lemma_commit_frame(v);
            }
        },
        None => {},
    }
}

/// Opening the impedance editor and pressing enter sets the target to
/// its whole-ohm rounding (ties to even) when that lies between 10 and
/// 200 ohm and differs from it by more than 0.01 ohm, and leaves it
/// otherwise.
pub proof fn law_edit_enter_rounds(v: DeskView, idx: usize)
    requires
        idx < v.requirements.len(),
    ensures
        ({
            let t = v.requirements[idx as int].target_zo as nat;
            let w = crate::text::round_half_even(t, 1000) * 1000;
            let after = crate::desk::after_key(crate::desk::after_begin_edit(v, idx), idx, "enter"@);
            after.requirements[idx as int].target_zo == if 10_000 <= w <= 200_000 && crate::desk::dist(t, w) > 10 {
                w
            } else {
                t
            }
        }),
{
    reveal_strlit("enter");
    reveal_strlit(".");
    reveal_strlit("backspace");
    let t = v.requirements[idx as int].target_zo as nat;
    let r = crate::text::round_half_even(t, 1000);
    crate::text::lemma_dec_reads_back(r);
    crate::number::lemma_reads_digits(crate::text::dec(r));
    let e = crate::desk::after_begin_edit(v, idx);
    assert(crate::text::round_half_even(r * 1000, 1) == r * 1000);
    crate::desk::lemma_commit_frame(e);
    let closed = DeskView { editing_zo: None, ..e };
    if 10_000 <= r * 1000 <= 200_000 && crate::desk::dist(t, r * 1000) > 10 {
        let w = crate::desk::with_req(
            closed,
            idx as int,
            crate::models::ReqView { target_zo: (r * 1000) as u32, ..e.requirements[idx as int] },
        );
        crate::desk::lemma_recalc_frame(w);
    }
}

/// The fabricator's list puts every recommended template before every
/// other one.
pub proof fn law_recommended_first(raws: Seq<crate::templates::RawTemplateView>, tag: Seq<char>)
    ensures
        ({
            let ts = crate::templates::spec_build_templates(raws, tag);
            forall|i: int, j: int| 0 <= i < j < ts.len() && (#[trigger] ts[j]).is_common ==> (#[trigger] ts[i]).is_common
        }),
{
    let f = |r: crate::templates::RawTemplateView| crate::templates::template_from_raw(r);
    let pa = |r: crate::templates::RawTemplateView| crate::templates::accepts(r, tag) && crate::templates::raw_is_common(r) == true;
    let pb = |r: crate::templates::RawTemplateView| crate::templates::accepts(r, tag) && crate::templates::raw_is_common(r) == false;
    let a = raws.filter(pa);
    let b = raws.filter(pb);
    assert(crate::templates::offered(raws, tag, true) == a);
    assert(crate::templates::offered(raws, tag, false) == b);
    let ts = crate::templates::spec_build_templates(raws, tag);
    assert forall|i: int, j: int| 0 <= i < j < ts.len() && (#[trigger] ts[j]).is_common implies (#[trigger] ts[i]).is_common by {
        if i < a.len() {
            raws.lemma_filter_pred(pa, i);
            assert(ts[i] == f(a[i]));
        } else {
            raws.lemma_filter_pred(pb, j - a.len());
            assert(ts[j] == f(b[j - a.len()]));
        }
    }
}

/// The solver model follows the layer: on an inner layer
/// (`1 < layer < plate_layers`) a line that is not coplanar is solved as
/// an offset stripline; on the top or bottom layer a pair is an
/// edge-coupled coated microstrip and a single line a microstrip. The
/// copper is 1.6 mil thick on the top and bottom layers and 0.6 mil
/// inside.
pub proof fn law_model_follows_layer(req: ReqView, plate_layers: u32)
    requires
        !crate::text::has_substring(req.mode, "共面"@),
    ensures
        crate::text::has_substring(req.mode, "差分"@) ==> crate::solver::spec_calc_mark(
            req.mode,
            req.layer,
            plate_layers,
        ) == if 1 < req.layer && req.layer < plate_layers {
            "W2_DiffOffsetStripline1B1A"@
        } else {
            "W2_DiffEdgeCoupledCoatedMicrostrip1B"@
        },
        !crate::text::has_substring(req.mode, "差分"@) && 1 < req.layer && req.layer < plate_layers
            ==> crate::solver::spec_calc_mark(req.mode, req.layer, plate_layers) == "W2_OffsetStripline1B1A"@,
        !crate::text::has_substring(req.mode, "差分"@) && (req.layer <= 1 || req.layer >= plate_layers)
            ==> (crate::solver::spec_calc_mark(req.mode, req.layer, plate_layers) == "W2_SurfaceMicrostrip1B"@
            || crate::solver::spec_calc_mark(req.mode, req.layer, plate_layers) == "W2_CoatedMicrostrip1B"@),
        crate::solver::spec_calc_args(req, plate_layers).t1 == if req.layer == 1 || req.layer == plate_layers {
            1600u32
        } else {
            600u32
        },
{
}

/// Every template whose name carries `"7628"` or `"通用"` is recommended,
/// whatever the fabricator's default flag.
pub proof fn law_7628_is_recommended(raws: Seq<crate::templates::RawTemplateView>, tag: Seq<char>)
    ensures
        ({
            let ts = crate::templates::spec_build_templates(raws, tag);
            forall|i: int|
                0 <= i < ts.len() && (crate::text::has_substring((#[trigger] ts[i]).display_name, "7628"@)
                    || crate::text::has_substring(ts[i].display_name, "通用"@)) ==> ts[i].is_common
        }),
{
    let a = crate::templates::offered(raws, tag, true);
    let b = crate::templates::offered(raws, tag, false);
    let f = |r: crate::templates::RawTemplateView| crate::templates::template_from_raw(r);
    let ts = crate::templates::spec_build_templates(raws, tag);
    assert forall|i: int|
        0 <= i < ts.len() && (crate::text::has_substring((#[trigger] ts[i]).display_name, "7628"@)
            || crate::text::has_substring(ts[i].display_name, "通用"@)) implies ts[i].is_common by {
        if i < a.len() {
            assert(ts[i] == f(a[i]));
            raws.lemma_filter_pred(
                |r: crate::templates::RawTemplateView| crate::templates::accepts(r, tag)
                    && crate::templates::raw_is_common(r) == true,
                i,
            );
        } else {
            let j = i - a.len();
            assert(ts[i] == f(b[j]));
            raws.lemma_filter_pred(
                |r: crate::templates::RawTemplateView| crate::templates::accepts(r, tag)
                    && crate::templates::raw_is_common(r) == false,
                j,
            );
        }
    }
}

/// Moving a requirement to another layer sets its reference planes to
/// the planes next to it: L2 under the top layer, the layer above the
/// bottom layer, and both neighbours `L - 1` and `L + 1` for an inner
/// layer `L`; its other fields stay.
pub proof fn law_layer_moves_references(v: DeskView, idx: usize, layer: u32)
    requires
        idx < v.requirements.len(),
        v.requirements[idx as int].layer != layer,
        1 <= layer <= v.config.board_layer,
    ensures
        ({
            let old_r = v.requirements[idx as int];
            let r = after_set_layer(v, idx, layer).requirements[idx as int];
            &&& after_set_layer(v, idx, layer).requirements.len() == v.requirements.len()
            &&& r.layer == layer
            &&& layer == 1 ==> r.up_ref == None::<u32> && r.down_ref == Some(2u32)
            &&& 1 < layer < v.config.board_layer ==> r.up_ref == Some((layer - 1) as u32) && r.down_ref == Some(
                (layer + 1) as u32,
            )
            &&& 1 < layer && layer == v.config.board_layer ==> r.up_ref == Some((layer - 1) as u32)
                && r.down_ref == None::<u32>
            &&& r.id == old_r.id && r.target_zo == old_r.target_zo && r.mode == old_r.mode
            &&& r.tolerance == old_r.tolerance && r.w1 == old_r.w1 && r.s1 == old_r.s1 && r.d1 == old_r.d1
        }),
{
    let c = DeskView { active_dropdown: None, ..v };
    crate::desk::lemma_recalc_frame(crate::desk::with_req(c, idx as int, crate::desk::with_layer(c, idx, layer)));
}

/// The preset requirements: a 50 ohm single line on L1 over L2; 90 and
/// 100 ohm differential pairs on L1 over L2 with their spacing; a 50 ohm
/// single line on the bottom layer under the layer above. Each is added
/// last, after the requirements already there.
#[verifier::spinoff_prover]
#[verifier::rlimit(40)]
pub proof fn law_presets(v: DeskView, kind: Seq<char>, id: Seq<char>)
    requires
        kind == "50_l1"@ || kind == "90_l1"@ || kind == "100_l1"@ || kind == "50_l4"@,
    ensures
        ({
            let reqs = after_add_preset(v, kind, id).requirements;
            let r = reqs.last();
            let bottom = v.config.board_layer;
            &&& reqs.len() == v.requirements.len() + 1
            &&& reqs.drop_last() == commit(v).requirements
            &&& r.id == id && r.tolerance == 500
            &&& (kind == "90_l1"@ || kind == "100_l1"@) ==> {
                &&& r.mode == "差分阻抗（外层）"@
                &&& crate::text::has_substring(r.mode, "差分"@)
                &&& r.layer == 1 && r.up_ref == None::<u32> && r.down_ref == Some(2u32)
                &&& r.target_zo == if kind == "90_l1"@ { 90_000u32 } else { 100_000u32 }
                &&& r.w1 == if kind == "90_l1"@ { 4500u32 } else { 4000u32 }
                &&& r.s1 == if kind == "90_l1"@ { Some(5500u32) } else { Some(6000u32) }
            }
            &&& (kind == "50_l1"@ || kind == "50_l4"@) ==> {
                &&& r.mode == "单端阻抗（外层）"@
                &&& r.target_zo == 50_000 && r.w1 == 8000 && r.s1 == None::<u32>
            }
            &&& kind == "50_l1"@ ==> r.layer == 1 && r.up_ref == None::<u32> && r.down_ref == Some(2u32)
            &&& kind == "50_l4"@ ==> r.layer == bottom && r.up_ref == Some((bottom - 1) as u32) && r.down_ref
                == None::<u32>
        }),
{
    reveal_strlit("50_l1");
    reveal_strlit("90_l1");
    reveal_strlit("100_l1");
    reveal_strlit("50_l4");
    reveal_strlit("差分阻抗（外层）");
    reveal_strlit("差分");
    assert("50_l1"@[0] != "90_l1"@[0] && "50_l1"@[0] != "100_l1"@[0] && "90_l1"@[0] != "100_l1"@[0]);
    assert("50_l4"@[4] != "50_l1"@[4] && "50_l4"@[0] != "90_l1"@[0] && "50_l4"@[0] != "100_l1"@[0]);
    crate::desk::lemma_commit_frame(v);
    let c = commit(v);
    let r = crate::desk::preset_req(kind, id, c.config.board_layer).unwrap();
    let w = crate::desk::with_new_req(c, r);
    crate::desk::lemma_recalc_frame(w);
    assert(w.requirements.drop_last() =~= c.requirements);
    assert("差分阻抗（外层）"@.subrange(0, 2) =~= "差分"@);
    assert(crate::text::occurs_at("差分阻抗（外层）"@, "差分"@, 0));
}

/// Escape closes the impedance editor and keeps the typed text out:
/// nothing else changes, every target stays.
pub proof fn law_escape_cancels(v: DeskView, idx: usize)
    requires
        v.editing_zo matches Some(e) && e.0 == idx,
    ensures
        after_key(v, idx, "escape"@) == (DeskView { editing_zo: None, ..v }),
        after_key(v, idx, "escape"@).requirements == v.requirements,
{
    reveal_strlit("escape");
    reveal_strlit(".");
    reveal_strlit("backspace");
    reveal_strlit("enter");
    reveal_strlit("return");
    assert("escape"@ != "."@);
    assert("escape"@ != "backspace"@);
    assert("escape"@ != "enter"@);
    assert("escape"@[0] != "return"@[0]);
    assert("escape"@ != "return"@);
}

/// The rest of the solver model table: a coplanar pair is a coated
/// coplanar waveguide pair on any layer; a coplanar single line is a
/// surface waveguide without solder mask and a coated one with it; a
/// single line on the top or bottom layer is a surface microstrip
/// without solder mask and a coated one with it.
pub proof fn law_model_table(mode: Seq<char>, layer: u32, plate_layers: u32)
    ensures
        crate::text::has_substring(mode, "共面"@) && crate::text::has_substring(mode, "差分"@)
            ==> crate::solver::spec_calc_mark(mode, layer, plate_layers)
            == "W2_DiffCoatedCoplanarWaveguideWithLowerGnd1B"@,
        crate::text::has_substring(mode, "共面"@) && !crate::text::has_substring(mode, "差分"@)
            ==> crate::solver::spec_calc_mark(mode, layer, plate_layers) == if crate::text::has_substring(
            mode,
            "不带防焊"@,
        ) {
            "W2_SurfaceCoplanarWaveguideWithLowerGnd1B"@
        } else {
            "W2_CoatedCoplanarWaveguideWithLowerGnd1B"@
        },
        !crate::text::has_substring(mode, "共面"@) && !crate::text::has_substring(mode, "差分"@) && (layer
            <= 1 || layer >= plate_layers) ==> crate::solver::spec_calc_mark(mode, layer, plate_layers)
            == if crate::text::has_substring(mode, "不带防焊"@) {
            "W2_SurfaceMicrostrip1B"@
        } else {
            "W2_CoatedMicrostrip1B"@
        },
{
}

/// The solver's arguments: the requirement's own target and tolerance;
/// starting widths 5.2/4.5 mil and the 108 ohm hint with the pair's
/// spacing (5.5 mil when none is set) for a pair, 8.0/7.5 mil and no
/// spacing for a single line; no solder mask (Er 1.0) for a bare-copper
/// mode, 1.2/0.6 mil of Er 3.8 mask otherwise; the ground gap (8.0 mil
/// when none is set) only for a coplanar line.
pub proof fn law_solver_arguments(req: ReqView, plate_layers: u32)
    ensures
        ({
            let a = crate::solver::spec_calc_args(req, plate_layers);
            let pair = crate::text::has_substring(req.mode, "差分"@);
            let bare = crate::text::has_substring(req.mode, "不带防焊"@);
            let coplanar = crate::text::has_substring(req.mode, "共面"@);
            &&& a.zo == req.target_zo && a.zo_tol == req.tolerance
            &&& a.h1 == 8126 && a.er1 == 4300
            &&& pair ==> a.w1 == 5200 && a.w2 == 4500 && a.hz0 == Some(108u32) && a.s1 == Some(
                match req.s1 {
                    Some(x) => x,
                    None => 5500u32,
                },
            )
            &&& !pair ==> a.w1 == 8000 && a.w2 == 7500 && a.hz0 == None::<u32> && a.s1 == None::<u32>
                && a.c3 == None::<u32>
            &&& bare ==> a.c1 == 0 && a.c2 == 0 && a.cer == 1000
            &&& !bare ==> a.c1 == 1200 && a.c2 == 600 && a.cer == 3800
            &&& coplanar ==> a.d1 == Some(
                match req.d1 {
                    Some(x) => x,
                    None => 8000u32,
                },
            )
            &&& !coplanar ==> a.d1 == None::<u32>
        }),
{
}

/// Every listed template's name carries the copper tag, `"1H"` or
/// `"7628"`.
pub proof fn law_listed_names_match(raws: Seq<crate::templates::RawTemplateView>, tag: Seq<char>)
    ensures
        ({
            let ts = crate::templates::spec_build_templates(raws, tag);
            forall|i: int|
                0 <= i < ts.len() ==> crate::text::has_substring((#[trigger] ts[i]).display_name, tag)
                    || crate::text::has_substring(ts[i].display_name, "1H"@)
                    || crate::text::has_substring(ts[i].display_name, "7628"@)
        }),
{
    let a = crate::templates::offered(raws, tag, true);
    let b = crate::templates::offered(raws, tag, false);
    let f = |r: crate::templates::RawTemplateView| crate::templates::template_from_raw(r);
    let ts = crate::templates::spec_build_templates(raws, tag);
    assert forall|i: int| 0 <= i < ts.len() implies crate::text::has_substring((#[trigger] ts[i]).display_name, tag)
        || crate::text::has_substring(ts[i].display_name, "1H"@)
        || crate::text::has_substring(ts[i].display_name, "7628"@) by {
        if i < a.len() {
            assert(ts[i] == f(a[i]));
            raws.lemma_filter_pred(
                |r: crate::templates::RawTemplateView| crate::templates::accepts(r, tag)
                    && crate::templates::raw_is_common(r) == true,
                i,
            );
        } else {
            let j = i - a.len();
            assert(ts[i] == f(b[j]));
            raws.lemma_filter_pred(
                |r: crate::templates::RawTemplateView| crate::templates::accepts(r, tag)
                    && crate::templates::raw_is_common(r) == false,
                j,
            );
        }
    }
}

/// Setting the mode, the upper or the lower reference of one
/// requirement changes that field of that requirement only.
pub proof fn law_field_setters(v: DeskView, idx: usize, mode: Seq<char>, r: Option<u32>)
    requires
        idx < v.requirements.len(),
    ensures
        ({
            let old_r = v.requirements[idx as int];
            let m = crate::desk::replace_req(v, idx, crate::desk::with_mode(v, idx, mode)).requirements;
            let u = crate::desk::replace_req(v, idx, crate::desk::with_up_ref(v, idx, r)).requirements;
            let d = crate::desk::replace_req(v, idx, crate::desk::with_down_ref(v, idx, r)).requirements;
            &&& m.len() == v.requirements.len() && u.len() == v.requirements.len() && d.len() == v.requirements.len()
            &&& m[idx as int] == (ReqView { mode, ..old_r })
            &&& u[idx as int] == (ReqView { up_ref: r, ..old_r })
            &&& d[idx as int] == (ReqView { down_ref: r, ..old_r })
            &&& forall|j: int| 0 <= j < v.requirements.len() && j != idx ==> m[j] == v.requirements[j] && u[j]
                == v.requirements[j] && d[j] == v.requirements[j]
        }),
{
    let c = DeskView { active_dropdown: None, ..v };
    crate::desk::lemma_recalc_frame(crate::desk::with_req(c, idx as int, crate::desk::with_mode(c, idx, mode)));
    crate::desk::lemma_recalc_frame(crate::desk::with_req(c, idx as int, crate::desk::with_up_ref(c, idx, r)));
    crate::desk::lemma_recalc_frame(crate::desk::with_req(c, idx as int, crate::desk::with_down_ref(c, idx, r)));
}

/// Copying a requirement puts the copy, with the fresh id and every
/// other field of the original, right after the original, and moves the
/// requirements after it one place on.
pub proof fn law_copy_inserts_after(v: DeskView, idx: usize, id: Seq<char>)
    requires
        idx < commit(v).requirements.len(),
    ensures
        ({
            let c = commit(v).requirements;
            let n = crate::desk::after_copy(v, idx, id).requirements;
            &&& n.len() == c.len() + 1
            &&& forall|j: int| 0 <= j <= idx ==> n[j] == c[j]
            &&& n[idx + 1] == (ReqView { id, ..c[idx as int] })
            &&& forall|j: int| idx < j < c.len() ==> n[j + 1] == c[j]
        }),
{
    let cv = commit(v);
    crate::desk::lemma_recalc_frame(
        DeskView {
            requirements: cv.requirements.insert(idx + 1, ReqView { id, ..cv.requirements[idx as int] }),
            ..cv
        },
    );
}

/// The target buttons move only that requirement's target, by `delta`
/// thousandths and held between 10 and 200 ohm.
pub proof fn law_adjust_moves_one_target(v: DeskView, idx: usize, delta: i32)
    requires
        idx < v.requirements.len(),
    ensures
        ({
            let c = commit(v).requirements;
            let n = after_adjust(v, idx, delta).requirements;
            let want = c[idx as int].target_zo + delta;
            &&& n.len() == c.len()
            &&& n[idx as int] == (ReqView { target_zo: n[idx as int].target_zo, ..c[idx as int] })
            &&& 10_000 <= want <= 200_000 ==> n[idx as int].target_zo == want
            &&& want < 10_000 ==> n[idx as int].target_zo == 10_000
            &&& want > 200_000 ==> n[idx as int].target_zo == 200_000
            &&& forall|j: int| 0 <= j < c.len() && j != idx ==> n[j] == c[j]
        }),
{
    crate::desk::lemma_commit_frame(v);
    let cv = commit(v);
    crate::desk::lemma_recalc_frame(
        crate::desk::with_req(
            cv,
            idx as int,
            ReqView {
                target_zo: crate::desk::clamp_zo(cv.requirements[idx as int].target_zo + delta),
                ..cv.requirements[idx as int]
            },
        ),
    );
}

/// In the impedance editor, backspace undoes a typed digit and typing
/// the digit again undoes a backspace: typing a digit `d` into a text of
/// under four bytes and then pressing backspace gives the text back, and
/// pressing backspace on a text ending in a digit and then typing that
/// digit gives it back too.
pub proof fn law_backspace_undoes_digit(v: DeskView, idx: usize, t: Seq<char>, d: char)
    requires
        v.editing_zo == Some((idx, t)),
        crate::text::is_digit(d),
    ensures
        ({
            vstd::utf8::encode_utf8(t).len() < 4 ==> after_key(after_key(v, idx, seq![d]), idx, "backspace"@)
                == v
        }),
        ({
            t.len() > 0 && t.last() == d && vstd::utf8::encode_utf8(t.drop_last()).len() < 4 ==> after_key(
                after_key(v, idx, "backspace"@),
                idx,
                seq![d],
            ) == v
        }),
{
    reveal_strlit(".");
    reveal_strlit("backspace");
    reveal_strlit("enter");
    reveal_strlit("return");
    reveal_strlit("escape");
    assert(seq![d].len() == 1);
    assert(seq![d] != "backspace"@);
    assert(seq![d][0] == d);
    assert("backspace"@.len() == 9);
    if vstd::utf8::encode_utf8(t).len() < 4 {
        let w = DeskView { editing_zo: Some((idx, t + seq![d])), ..v };
        assert(after_key(v, idx, seq![d]) == w);
        assert((t + seq![d]).len() > 0);
        assert((t + seq![d]).drop_last() =~= t);
        assert(after_key(w, idx, "backspace"@) == DeskView { editing_zo: Some((idx, t)), ..v });
    }
    if t.len() > 0 && t.last() == d && vstd::utf8::encode_utf8(t.drop_last()).len() < 4 {
        let w = DeskView { editing_zo: Some((idx, t.drop_last())), ..v };
        assert(after_key(v, idx, "backspace"@) == w);
        assert(t.drop_last() + seq![d] =~= t);
        assert(after_key(w, idx, seq![d]) == DeskView { editing_zo: Some((idx, t)), ..v });
    }
}

} // verus!
