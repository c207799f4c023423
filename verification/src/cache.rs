//! The local store of solved impedance results, keyed by stack-up and
//! requirement, with hit and miss counters.
use vstd::prelude::*;
use vstd::string::*;

use crate::models::{ImpedanceReq, ImpedanceResult, ReqView, ResultView};
use crate::text::{
    debug_opt_count, debug_opt_milli, dec, digit_char, digit_str, display_milli, fixed3, push_debug_opt_count,
    push_debug_opt_milli, push_dec, push_display_milli, push_fixed3, round_half_even,
};

verus! {

/// The lookup key of a requirement on a stack-up: every field that the
/// solver's answer depends on, joined by `_`, numbers as the original
/// text formats write them (`{:.3}` for the target and the width, `{}` for
/// the tolerance, `{:?}` for the optional fields).
pub open spec fn cache_key(code: Seq<char>, req: ReqView) -> Seq<char> {
    code + seq!['_'] + req.id + seq!['_'] + fixed3(req.target_zo as nat) + seq!['_'] + req.mode
        + seq!['_'] + dec(req.layer as nat) + seq!['_'] + display_milli(req.tolerance as nat)
        + seq!['_'] + debug_opt_count(req.up_ref) + seq!['_'] + debug_opt_count(req.down_ref)
        + seq!['_'] + fixed3(req.w1 as nat) + seq!['_'] + debug_opt_milli(req.s1) + seq!['_']
        + debug_opt_milli(req.d1)
}

/// `s` holds no `_`.
pub open spec fn no_underscore(s: Seq<char>) -> bool {
    forall|i: int| 0 <= i < s.len() ==> s[i] != '_'
}

/// Parts joined by `_`, left to right.
pub open spec fn joined(p: Seq<Seq<char>>) -> Seq<char>
    decreases p.len(),
{
    if p.len() == 0 {
        seq![]
    } else if p.len() == 1 {
        p[0]
    } else {
        joined(p.drop_last()) + seq!['_'] + p.last()
    }
}

/// The parts of a cache key, in order.
pub open spec fn key_parts(code: Seq<char>, req: ReqView) -> Seq<Seq<char>> {
    seq![code, req.id, fixed3(req.target_zo as nat), req.mode, dec(req.layer as nat),
        display_milli(req.tolerance as nat), debug_opt_count(req.up_ref), debug_opt_count(req.down_ref),
        fixed3(req.w1 as nat), debug_opt_milli(req.s1), debug_opt_milli(req.d1)]
}

proof fn lemma_joined_push(p: Seq<Seq<char>>, x: Seq<char>)
    requires
        p.len() >= 1,
    ensures
        joined(p.push(x)) == joined(p) + seq!['_'] + x,
{
    assert(p.push(x).drop_last() =~= p);
}

/// A cache key is its parts joined by `_`.
pub proof fn lemma_key_joined(code: Seq<char>, req: ReqView)
    ensures
        cache_key(code, req) == joined(key_parts(code, req)),
{
    let p1 = seq![code];
    assert(joined(p1) == code);
    let p2 = p1.push(req.id);
    lemma_joined_push(p1, req.id);
    let p3 = p2.push(fixed3(req.target_zo as nat));
    lemma_joined_push(p2, fixed3(req.target_zo as nat));
    let p4 = p3.push(req.mode);
    lemma_joined_push(p3, req.mode);
    let p5 = p4.push(dec(req.layer as nat));
    lemma_joined_push(p4, dec(req.layer as nat));
    let p6 = p5.push(display_milli(req.tolerance as nat));
    lemma_joined_push(p5, display_milli(req.tolerance as nat));
    let p7 = p6.push(debug_opt_count(req.up_ref));
    lemma_joined_push(p6, debug_opt_count(req.up_ref));
    let p8 = p7.push(debug_opt_count(req.down_ref));
    lemma_joined_push(p7, debug_opt_count(req.down_ref));
    let p9 = p8.push(fixed3(req.w1 as nat));
    lemma_joined_push(p8, fixed3(req.w1 as nat));
    let p10 = p9.push(debug_opt_milli(req.s1));
    lemma_joined_push(p9, debug_opt_milli(req.s1));
    let p11 = p10.push(debug_opt_milli(req.d1));
    lemma_joined_push(p10, debug_opt_milli(req.d1));
    assert(p11 =~= key_parts(code, req));
}

proof fn lemma_split_last(a: Seq<char>, b: Seq<char>, c: Seq<char>, d: Seq<char>)
    requires
        no_underscore(b),
        no_underscore(d),
        a + seq!['_'] + b == c + seq!['_'] + d,
    ensures
        a == c,
        b == d,
{
    let s = a + seq!['_'] + b;
    let t = c + seq!['_'] + d;
    let n = s.len();
    assert(s[a.len() as int] == '_');
    assert(t[c.len() as int] == '_');
    if b.len() < d.len() {
        let i = a.len() as int;
        assert(i >= c.len() + 1);
        assert(t[i] == d[i - c.len() - 1]);
        assert(false);
    } else if d.len() < b.len() {
        let i = c.len() as int;
        assert(i >= a.len() + 1);
        assert(s[i] == b[i - a.len() - 1]);
        assert(false);
    }
    assert(a.len() == c.len());
    assert(a =~= s.take(a.len() as int));
    assert(c =~= t.take(c.len() as int));
    assert(b =~= s.skip((a.len() + 1) as int));
    assert(d =~= t.skip((c.len() + 1) as int));
}

proof fn lemma_split_first(a: Seq<char>, b: Seq<char>, c: Seq<char>, d: Seq<char>)
    requires
        no_underscore(a),
        no_underscore(c),
        a + seq!['_'] + b == c + seq!['_'] + d,
    ensures
        a == c,
        b == d,
{
    let s = a + seq!['_'] + b;
    let t = c + seq!['_'] + d;
    assert(s[a.len() as int] == '_');
    assert(t[c.len() as int] == '_');
    if a.len() < c.len() {
        assert(t[a.len() as int] == c[a.len() as int]);
        assert(false);
    } else if c.len() < a.len() {
        assert(s[c.len() as int] == a[c.len() as int]);
        assert(false);
    }
    assert(a =~= s.take(a.len() as int));
    assert(c =~= t.take(c.len() as int));
    assert(b =~= s.skip((a.len() + 1) as int));
    assert(d =~= t.skip((c.len() + 1) as int));
}

/// Joined parts are told apart when every part but the second holds no
/// `_`: equal joins of equally many parts have equal parts.
pub proof fn lemma_joined_injective(p: Seq<Seq<char>>, q: Seq<Seq<char>>)
    requires
        p.len() == q.len(),
        p.len() >= 2,
        joined(p) == joined(q),
        forall|i: int| 0 <= i < p.len() && i != 1 ==> no_underscore(#[trigger] p[i]) && no_underscore(q[i]),
    ensures
        p == q,
    decreases p.len(),
{
    if p.len() == 2 {
        assert(joined(p.drop_last()) == p[0]);
        assert(joined(q.drop_last()) == q[0]);
        assert(no_underscore(p[0]) && no_underscore(q[0]));
        lemma_split_first(p[0], p[1], q[0], q[1]);
        assert(p =~= q);
    } else {
        let n = p.len() - 1;
        assert(no_underscore(p[n]) && no_underscore(q[n]));
        lemma_split_last(joined(p.drop_last()), p.last(), joined(q.drop_last()), q.last());
        let p2 = p.drop_last();
        let q2 = q.drop_last();
        assert forall|i: int| 0 <= i < p2.len() && i != 1 implies no_underscore(#[trigger] p2[i]) && no_underscore(q2[i]) by {
            assert(p2[i] == p[i]);
            assert(q2[i] == q[i]);
        }
        lemma_joined_injective(p2, q2);
        assert forall|i: int| 0 <= i < p.len() implies p[i] == q[i] by {
            if i < n {
                assert(p2[i] == p[i]);
                assert(q2[i] == q[i]);
            }
        }
        assert(p =~= q);
    }
}

proof fn lemma_digits_no_underscore(s: Seq<char>)
    requires
        crate::text::all_digits(s),
    ensures
        no_underscore(s),
{
    assert forall|i: int| 0 <= i < s.len() implies s[i] != '_' by {
        assert(crate::text::is_digit(s[i]));
    }
}

proof fn lemma_concat_no_underscore(a: Seq<char>, b: Seq<char>)
    requires
        no_underscore(a),
        no_underscore(b),
    ensures
        no_underscore(a + b),
{
    assert forall|i: int| 0 <= i < (a + b).len() implies (a + b)[i] != '_' by {
        if i < a.len() {
            assert((a + b)[i] == a[i]);
        } else {
            assert((a + b)[i] == b[i - a.len()]);
        }
    }
}

proof fn lemma_dec_no_underscore(n: nat)
    ensures
        no_underscore(dec(n)),
{
    crate::text::lemma_dec_reads_back(n);
    lemma_digits_no_underscore(dec(n));
}

/// No formatted number in a cache key holds a `_`.
pub proof fn lemma_numbers_no_underscore(m: nat, o: Option<u32>)
    ensures
        no_underscore(dec(m)),
        no_underscore(fixed3(m)),
        no_underscore(display_milli(m)),
        no_underscore(debug_opt_count(o)),
        no_underscore(debug_opt_milli(o)),
{
    lemma_dec_no_underscore(m);
    lemma_dec_no_underscore(m / 1000);
    lemma_concat_no_underscore(
        dec(m / 1000),
        seq!['.', digit_char((m / 100) % 10), digit_char((m / 10) % 10), digit_char(m % 10)],
    );
    lemma_concat_no_underscore(dec(m / 1000), seq!['.']);
    lemma_concat_no_underscore(dec(m / 1000) + seq!['.'], crate::text::frac_digits(m));
    match o {
        None => {},
        Some(v) => {
            let w = v as nat;
            lemma_dec_no_underscore(w);
            lemma_dec_no_underscore(w / 1000);
            lemma_concat_no_underscore(seq!['S', 'o', 'm', 'e', '('], dec(w));
            lemma_concat_no_underscore(seq!['S', 'o', 'm', 'e', '('] + dec(w), seq![')']);
            lemma_concat_no_underscore(dec(w / 1000), seq!['.', '0']);
            lemma_concat_no_underscore(dec(w / 1000), seq!['.']);
            lemma_concat_no_underscore(dec(w / 1000) + seq!['.'], crate::text::frac_digits(w));
            let dm = crate::text::debug_milli(w);
            lemma_concat_no_underscore(seq!['S', 'o', 'm', 'e', '('], dm);
            lemma_concat_no_underscore(seq!['S', 'o', 'm', 'e', '('] + dm, seq![')']);
        },
    }
}

/// A stored result is always marked as coming from the cache.
pub open spec fn as_cached(r: ResultView) -> ResultView {
    ResultView { from_cache: true, ..r }
}

/// The hit rate in percent with one decimal and a `%` sign; `"0.0%"` when
/// nothing was looked up yet. The percentage is rounded to the nearest
/// tenth, a tie going to the even tenth.
pub open spec fn hit_rate_text(hits: nat, misses: nat) -> Seq<char> {
    if hits + misses == 0 {
        seq!['0', '.', '0', '%']
    } else {
        let t = round_half_even(1000 * hits, hits + misses);
        dec(t / 10) + seq!['.', digit_char(t % 10), '%']
    }
}

/// The results held by a list of entries, a later entry overriding an
/// earlier one with the same key.
pub open spec fn entries_map(s: Seq<(String, ImpedanceResult)>) -> Map<Seq<char>, ResultView>
    decreases s.len(),
{
    if s.len() == 0 {
        Map::empty()
    } else {
        entries_map(s.drop_last()).insert(s.last().0@, s.last().1@)
    }
}

/// No key occurs twice.
pub open spec fn keys_distinct(s: Seq<(String, ImpedanceResult)>) -> bool {
    forall|i: int, j: int| 0 <= i < j < s.len() ==> s[i].0@ != s[j].0@
}

proof fn lemma_absent(s: Seq<(String, ImpedanceResult)>, k: Seq<char>)
    requires
        forall|i: int| 0 <= i < s.len() ==> s[i].0@ != k,
    ensures
        !entries_map(s).dom().contains(k),
    decreases s.len(),
{
    if s.len() > 0 {
        lemma_absent(s.drop_last(), k);
    }
}

proof fn lemma_lookup(s: Seq<(String, ImpedanceResult)>, i: int)
    requires
        keys_distinct(s),
        0 <= i < s.len(),
    ensures
        entries_map(s).dom().contains(s[i].0@),
        entries_map(s)[s[i].0@] == s[i].1@,
    decreases s.len(),
{
    if i < s.len() - 1 {
        let t = s.drop_last();
        assert(keys_distinct(t));
        assert(t[i] == s[i]);
        lemma_lookup(t, i);
    }
}

proof fn lemma_update(s: Seq<(String, ImpedanceResult)>, i: int, v: ImpedanceResult)
    requires
        keys_distinct(s),
        0 <= i < s.len(),
    ensures
        entries_map(s.update(i, (s[i].0, v))) == entries_map(s).insert(s[i].0@, v@),
    decreases s.len(),
{
    let u = s.update(i, (s[i].0, v));
    if i == s.len() - 1 {
        assert(u.drop_last() =~= s.drop_last());
        assert(entries_map(u) =~= entries_map(s).insert(s[i].0@, v@));
    } else {
        let t = s.drop_last();
        assert(keys_distinct(t));
        assert(u.drop_last() =~= t.update(i, (t[i].0, v)));
        lemma_update(t, i, v);
        assert(s.last().0@ != s[i].0@);
        assert(entries_map(u) =~= entries_map(s).insert(s[i].0@, v@));
    }
}

/// The store of solved results.
pub struct ImpedanceCache {
    // A list of entries with distinct keys rather than a `HashMap`: vstd
    // specifies `HashMap` only for key types with a proved hash model, and
    // `String` keys have none, so nothing about lookups could be proved.
    store: Vec<(String, ImpedanceResult)>,
    hits: usize,
    misses: usize,
}

impl ImpedanceCache {
    #[verifier::type_invariant]
    spec fn keys_unique(self) -> bool {
        keys_distinct(self.store@)
    }

    /// The stored results by key.
    pub closed spec fn contents(self) -> Map<Seq<char>, ResultView> {
        entries_map(self.store@)
    }

    /// How many lookups found a result.
    pub closed spec fn hit_count(self) -> nat {
        self.hits as nat
    }

    /// How many lookups found nothing.
    pub closed spec fn miss_count(self) -> nat {
        self.misses as nat
    }

    /// An empty store with both counters at zero.
    pub fn new() -> (c: Self)
        ensures
            c.contents() == Map::<Seq<char>, ResultView>::empty(),
            c.hit_count() == 0,
            c.miss_count() == 0,
    {
        ImpedanceCache { store: Vec::new(), hits: 0, misses: 0 }
    }

    /// The key under which the result of `req` on the stack-up
    /// `template_code` is stored.
    pub fn generate_key(template_code: &str, req: &ImpedanceReq) -> (key: String)
        ensures
            key@ == cache_key(template_code@, req@),
    {
        proof {
            reveal_strlit("_");
        }
        let mut s = String::from_str(template_code);
        s.append("_");
        s.append(req.id.as_str());
        s.append("_");
        push_fixed3(&mut s, req.target_zo as u64);
        s.append("_");
        s.append(req.mode.as_str());
        s.append("_");
        push_dec(&mut s, req.layer as u64);
        s.append("_");
        push_display_milli(&mut s, req.tolerance as u64);
        s.append("_");
        push_debug_opt_count(&mut s, req.up_ref);
        s.append("_");
        push_debug_opt_count(&mut s, req.down_ref);
        s.append("_");
        push_fixed3(&mut s, req.w1 as u64);
        s.append("_");
        push_debug_opt_milli(&mut s, req.s1);
        s.append("_");
        push_debug_opt_milli(&mut s, req.d1);
        assert(s@ =~= cache_key(template_code@, req@));
        s
    }

    fn find(&self, key: &String) -> (r: Option<usize>)
        ensures
            match r {
                Some(i) => i < self.store@.len() && self.store@[i as int].0@ == key@,
                None => forall|i: int| 0 <= i < self.store@.len() ==> self.store@[i].0@ != key@,
            },
    {
        let mut i: usize = 0;
        while i < self.store.len()
            invariant
                i <= self.store@.len(),
                forall|j: int| 0 <= j < i ==> self.store@[j].0@ != key@,
            decreases self.store.len() - i,
        {
            if self.store[i].0 == *key {
                return Some(i);
            }
            i = i + 1;
        }
        None
    }

    /// Looks `key` up, counting a hit when a result is stored under it and
    /// a miss otherwise.
    pub fn get(&mut self, key: &str) -> (r: Option<ImpedanceResult>)
        requires
            old(self).contents().dom().contains(key@) ==> old(self).hit_count() < usize::MAX,
            !old(self).contents().dom().contains(key@) ==> old(self).miss_count() < usize::MAX,
        ensures
            final(self).contents() == old(self).contents(),
            old(self).contents().dom().contains(key@) ==> {
                &&& r is Some
                &&& r.unwrap()@ == old(self).contents()[key@]
                &&& final(self).hit_count() == old(self).hit_count() + 1
                &&& final(self).miss_count() == old(self).miss_count()
            },
            !old(self).contents().dom().contains(key@) ==> {
                &&& r is None
                &&& final(self).hit_count() == old(self).hit_count()
                &&& final(self).miss_count() == old(self).miss_count() + 1
            },
    {
        proof {
            use_type_invariant(&*self);
        }
        let k = String::from_str(key);
        match self.find(&k) {
            Some(i) => {
                proof {
                    lemma_lookup(self.store@, i as int);
                }
                let found = self.store[i].1.clone();
                self.hits = self.hits + 1;
                Some(found)
            },
            None => {
                proof {
                    lemma_absent(self.store@, key@);
                }
                self.misses = self.misses + 1;
                None
            },
        }
    }

    /// Stores `result` under `key`, marked as coming from the cache; an
    /// earlier result under the same key is replaced.
    pub fn set(&mut self, key: String, result: ImpedanceResult)
        ensures
            final(self).contents() == old(self).contents().insert(key@, as_cached(result@)),
            final(self).hit_count() == old(self).hit_count(),
            final(self).miss_count() == old(self).miss_count(),
    {
        proof {
            use_type_invariant(&*self);
        }
        let mut result = result;
        result.from_cache = true;
        match self.find(&key) {
            Some(i) => {
                let ghost before = self.store@;
                proof {
                    lemma_update(before, i as int, result);
                }
                let k = self.store[i].0.clone();
                let mut store = Vec::new();
                std::mem::swap(&mut store, &mut self.store);
                store.set(i, (k, result));
                assert(store@ =~= before.update(i as int, (before[i as int].0, result)));
                self.store = store;
            },
            None => {
                let ghost before = self.store@;
                let mut store = Vec::new();
                std::mem::swap(&mut store, &mut self.store);
                store.push((key, result));
                assert(store@.drop_last() =~= before);
                self.store = store;
            },
        }
    }

    /// The hit count, the miss count and the hit rate as text.
    pub fn stats(&self) -> (r: (usize, usize, String))
        ensures
            r.0 == self.hit_count(),
            r.1 == self.miss_count(),
            r.2@ == hit_rate_text(self.hit_count(), self.miss_count()),
    {
        let h = self.hits;
        let m = self.misses;
        (h, m, rate_text(h, m))
    }
}

fn rate_text(h: usize, m: usize) -> (s: String)
    ensures
        s@ == hit_rate_text(h as nat, m as nat),
{
    proof {
        reveal_strlit("0.0%");
        reveal_strlit(".");
        reveal_strlit("%");
    }
    let total: u128 = h as u128 + m as u128;
    if total == 0 {
        return String::from_str("0.0%");
    }
    let n: u128 = h as u128 * 1000;
    let q = n / total;
    let r = n % total;
    let t: u128 = if 2 * r > total {
        q + 1
    } else if 2 * r < total {
        q
    } else if q % 2 == 0 {
        q
    } else {
        q + 1
    };
    assert(q <= 1000) by (nonlinear_arith)
        requires
            n <= 1000 * total,
            q == n / total,
            total > 0,
    ;
    assert(t <= 1000 || (q == 1000 && r == 0)) by (nonlinear_arith)
        requires
            n <= 1000 * total,
            q == n / total,
            r == n % total,
            total > 0,
            t <= q + 1,
            t == q || 2 * r >= total,
    ;
    let mut s = String::new();
    push_dec(&mut s, (t / 10) as u64);
    s.append(".");
    s.append(digit_str((t % 10) as u64));
    s.append("%");
    assert(s@ =~= hit_rate_text(h as nat, m as nat));
    s
}

} // verus!
