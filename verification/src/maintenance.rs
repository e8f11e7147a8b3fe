//! Maintenance windows: reading them from the configuration, dropping the
//! ones that cannot be read or are empty, and merging the overlapping or
//! touching ones of each day into the fewest windows that cover the same
//! minutes.

use vstd::prelude::*;
use crate::config::{Weekday, weekday_named, hhmm_of, day_index, weekday_short, hhmm_text};

verus! {

/// A maintenance window as the configuration writes it.
pub struct MaintenanceWindowConfig {
    pub weekday: String,
    pub start_time: String,
    pub end_time: String,
}

/// The texts of a window.
pub type WindowText = (Seq<char>, Seq<char>, Seq<char>);

impl View for MaintenanceWindowConfig {
    type V = WindowText;

    open spec fn view(&self) -> WindowText {
        (self.weekday@, self.start_time@, self.end_time@)
    }
}

pub open spec fn windows_view(ws: Seq<MaintenanceWindowConfig>) -> Seq<WindowText> {
    ws.map_values(|w: MaintenanceWindowConfig| w@)
}

// ------------------------------------------------------------------
// Spans of minutes
// ------------------------------------------------------------------

/// Whether minute `x` lies in one of the spans `[start, end)`.
pub open spec fn covers(ivs: Seq<(u32, u32)>, x: int) -> bool
    decreases ivs.len(),
{
    ivs.len() > 0 && (covers(ivs.drop_last(), x) || (ivs.last().0 <= x < ivs.last().1))
}

/// Spans in increasing order, each non-empty, with a gap between each and
/// the next: the fewest spans that cover their minutes.
pub open spec fn canonical(ivs: Seq<(u32, u32)>) -> bool {
    &&& forall|k: int| 0 <= k < ivs.len() ==> #[trigger] ivs[k].0 < ivs[k].1
    &&& forall|k: int, l: int| 0 <= k < l < ivs.len() ==> #[trigger] ivs[k].1 < #[trigger] ivs[l].0
}

/// Spans in order of their starts.
pub open spec fn sorted_by_start(ivs: Seq<(u32, u32)>) -> bool {
    forall|k: int, l: int| 0 <= k < l < ivs.len() ==> #[trigger] ivs[k].0 <= #[trigger] ivs[l].0
}

pub open spec fn nonempty_spans(ivs: Seq<(u32, u32)>) -> bool {
    forall|k: int| 0 <= k < ivs.len() ==> #[trigger] ivs[k].0 < ivs[k].1
}

/// The day and span of minutes a configured window stands for, when its
/// day and both times can be read and it is not empty.
pub open spec fn window_span(w: WindowText) -> Option<(Weekday, u32, u32)> {
    match (
        weekday_named(w.0),
        hhmm_of(vstd::utf8::encode_utf8(w.1)),
        hhmm_of(vstd::utf8::encode_utf8(w.2)),
    ) {
        (Some(d), Some((sh, sm)), Some((eh, em))) => {
            let s = sh * 60 + sm;
            let e = eh * 60 + em;
            if s < e {
                Some((d, s as u32, e as u32))
            } else {
                None
            }
        },
        _ => None,
    }
}

/// The spans of the windows on day `d`, in the order they are configured.
pub open spec fn spans_on(ws: Seq<WindowText>, d: Weekday) -> Seq<(u32, u32)>
    decreases ws.len(),
{
    if ws.len() == 0 {
        seq![]
    } else {
        match window_span(ws.last()) {
            Some((wd, s, e)) => if wd == d {
                spans_on(ws.drop_last(), d).push((s, e))
            } else {
                spans_on(ws.drop_last(), d)
            },
            None => spans_on(ws.drop_last(), d),
        }
    }
}

/// The spans of day `d` among day-tagged spans, in order.
pub open spec fn day_part(r: Seq<(Weekday, u32, u32)>, d: Weekday) -> Seq<(u32, u32)>
    decreases r.len(),
{
    if r.len() == 0 {
        seq![]
    } else if r.last().0 == d {
        day_part(r.drop_last(), d).push((r.last().1, r.last().2))
    } else {
        day_part(r.drop_last(), d)
    }
}

/// What normalizing the windows gives: spans grouped by day from Monday to
/// Sunday, and for each day the fewest spans that cover exactly the minutes
/// of that day's readable windows.
pub open spec fn normalized_for(ws: Seq<WindowText>, r: Seq<(Weekday, u32, u32)>) -> bool {
    &&& forall|i: int, j: int|
        0 <= i < j < r.len() ==> day_index(#[trigger] r[i].0) <= day_index(#[trigger] r[j].0)
    &&& forall|d: Weekday| canonical(#[trigger] day_part(r, d))
    &&& forall|d: Weekday, x: int| #[trigger] covers(day_part(r, d), x) <==> covers(spans_on(ws, d), x)
}

// ------------------------------------------------------------------
// Facts about spans
// ------------------------------------------------------------------

proof fn lemma_covers_concat(a: Seq<(u32, u32)>, b: Seq<(u32, u32)>, x: int)
    ensures
        covers(a + b, x) <==> covers(a, x) || covers(b, x),
    decreases b.len(),
{
    if b.len() == 0 {
        assert(a + b =~= a);
    } else {
        assert((a + b).drop_last() =~= a + b.drop_last());
        assert((a + b).last() == b.last());
        lemma_covers_concat(a, b.drop_last(), x);
    }
}

proof fn lemma_covers_witness(a: Seq<(u32, u32)>, x: int)
    ensures
        covers(a, x) <==> exists|k: int| 0 <= k < a.len() && #[trigger] a[k].0 <= x < a[k].1,
    decreases a.len(),
{
    if a.len() > 0 {
        let p = a.drop_last();
        lemma_covers_witness(p, x);
        if covers(p, x) {
            let k = choose|k: int| 0 <= k < p.len() && #[trigger] p[k].0 <= x < p[k].1;
            assert(a[k] == p[k]);
        }
        if exists|k: int| 0 <= k < a.len() && #[trigger] a[k].0 <= x < a[k].1 {
            let k = choose|k: int| 0 <= k < a.len() && #[trigger] a[k].0 <= x < a[k].1;
            if k < a.len() - 1 {
                assert(p[k] == a[k]);
            }
        }
    }
}

/// Two canonical span lists that cover the same minutes are the same list.
pub proof fn law_canonical_unique(a: Seq<(u32, u32)>, b: Seq<(u32, u32)>)
    requires
        canonical(a),
        canonical(b),
        forall|x: int| covers(a, x) <==> covers(b, x),
    ensures
        a == b,
    decreases a.len() + b.len(),
{
    if a.len() == 0 || b.len() == 0 {
        if a.len() > 0 {
            lemma_covers_witness(a, a[0].0 as int);
            lemma_covers_witness(b, a[0].0 as int);
        }
        if b.len() > 0 {
            lemma_covers_witness(a, b[0].0 as int);
            lemma_covers_witness(b, b[0].0 as int);
        }
        assert(a =~= b);
    } else {
        let la = a.last();
        let lb = b.last();
        // Every minute of a list lies before the end of its last span, and
        // the minute before the last span starts is not covered.
        assert forall|x: int| covers(a, x) implies x < la.1 by {
            lemma_covers_witness(a, x);
            let k = choose|k: int| 0 <= k < a.len() && #[trigger] a[k].0 <= x < a[k].1;
            if k < a.len() - 1 {
                assert(a[k].1 < a[a.len() - 1].0);
            }
        }
        assert forall|x: int| covers(b, x) implies x < lb.1 by {
            lemma_covers_witness(b, x);
            let k = choose|k: int| 0 <= k < b.len() && #[trigger] b[k].0 <= x < b[k].1;
            if k < b.len() - 1 {
                assert(b[k].1 < b[b.len() - 1].0);
            }
        }
        lemma_covers_witness(a, la.1 - 1);
        lemma_covers_witness(b, lb.1 - 1);
        assert(la.1 == lb.1);
        assert forall|x: int| la.0 <= x < la.1 implies covers(b, x) by {
            lemma_covers_witness(a, x);
        }
        assert forall|x: int| lb.0 <= x < lb.1 implies covers(a, x) by {
            lemma_covers_witness(b, x);
        }
        // The minute just before each last span is a gap in its own list.
        if la.0 < lb.0 {
            let x = lb.0 - 1;
            assert(covers(a, x));
            lemma_covers_witness(b, x);
            let k = choose|k: int| 0 <= k < b.len() && #[trigger] b[k].0 <= x < b[k].1;
            if k < b.len() - 1 {
                assert(b[k].1 < b[b.len() - 1].0);
            }
            assert(false);
        }
        if lb.0 < la.0 {
            let x = la.0 - 1;
            assert(covers(b, x));
            lemma_covers_witness(a, x);
            let k = choose|k: int| 0 <= k < a.len() && #[trigger] a[k].0 <= x < a[k].1;
            if k < a.len() - 1 {
                assert(a[k].1 < a[a.len() - 1].0);
            }
            assert(false);
        }
        assert(la == lb);
        let pa = a.drop_last();
        let pb = b.drop_last();
        assert forall|x: int| covers(pa, x) <==> covers(pb, x) by {
            lemma_covers_witness(pa, x);
            lemma_covers_witness(pb, x);
            if covers(pa, x) {
                let k = choose|k: int| 0 <= k < pa.len() && #[trigger] pa[k].0 <= x < pa[k].1;
                assert(a[k].1 < a[a.len() - 1].0);
                assert(covers(b, x));
                lemma_covers_witness(b, x);
                let j = choose|j: int| 0 <= j < b.len() && #[trigger] b[j].0 <= x < b[j].1;
                assert(j < b.len() - 1);
                assert(pb[j] == b[j]);
            }
            if covers(pb, x) {
                let k = choose|k: int| 0 <= k < pb.len() && #[trigger] pb[k].0 <= x < pb[k].1;
                assert(b[k].1 < b[b.len() - 1].0);
                assert(covers(a, x));
                lemma_covers_witness(a, x);
                let j = choose|j: int| 0 <= j < a.len() && #[trigger] a[j].0 <= x < a[j].1;
                assert(j < a.len() - 1);
                assert(pa[j] == a[j]);
            }
        }
        assert(canonical(pa));
        assert(canonical(pb));
        law_canonical_unique(pa, pb);
        assert(a =~= pa.push(la));
        assert(b =~= pb.push(lb));
    }
}

// ------------------------------------------------------------------
// Normalizing
// ------------------------------------------------------------------

/// The day and span of minutes of a configured window, when it can be read
/// and is not empty.
pub fn read_window(w: &MaintenanceWindowConfig) -> (r: Option<(Weekday, u32, u32)>)
    ensures
        r == window_span(w@),
{
    let d = match crate::config::parse_weekday(w.weekday.as_str()) {
        Some(d) => d,
        None => {
            return None;
        },
    };
    let (sh, sm) = match crate::config::parse_hhmm_strict(w.start_time.as_str()) {
        Some(t) => t,
        None => {
            return None;
        },
    };
    let (eh, em) = match crate::config::parse_hhmm_strict(w.end_time.as_str()) {
        Some(t) => t,
        None => {
            return None;
        },
    };
    let start = sh * 60 + sm;
    let end = eh * 60 + em;
    if start >= end {
        return None;
    }
    Some((d, start, end))
}

fn spans_of_day(ws: &Vec<MaintenanceWindowConfig>, d: Weekday) -> (r: Vec<(u32, u32)>)
    ensures
        r@ == spans_on(windows_view(ws@), d),
        nonempty_spans(r@),
{
    let ghost wv = windows_view(ws@);
    let mut r: Vec<(u32, u32)> = Vec::new();
    let mut i: usize = 0;
    while i < ws.len()
        invariant
            i <= ws@.len(),
            wv == windows_view(ws@),
            wv.len() == ws@.len(),
            r@ == spans_on(wv.take(i as int), d),
            nonempty_spans(r@),
        decreases ws@.len() - i,
    {
        proof {
            assert(wv.take(i + 1).drop_last() =~= wv.take(i as int));
            assert(wv.take(i + 1).last() == ws@[i as int]@);
        }
        match read_window(&ws[i]) {
            Some((wd, s, e)) => {
                if wd == d {
                    r.push((s, e));
                }
            },
            None => {},
        }
        i = i + 1;
    }
    assert(wv.take(ws@.len() as int) =~= wv);
    r
}

/// The spans in order of their starts; they cover the same minutes.
fn sort_spans(v: &Vec<(u32, u32)>) -> (r: Vec<(u32, u32)>)
    requires
        nonempty_spans(v@),
    ensures
        sorted_by_start(r@),
        nonempty_spans(r@),
        forall|x: int| covers(r@, x) <==> covers(v@, x),
{
    let mut out: Vec<(u32, u32)> = Vec::new();
    let mut i: usize = 0;
    while i < v.len()
        invariant
            i <= v@.len(),
            nonempty_spans(v@),
            sorted_by_start(out@),
            nonempty_spans(out@),
            forall|x: int| covers(out@, x) <==> covers(v@.take(i as int), x),
        decreases v@.len() - i,
    {
        let e = v[i];
        let mut p: usize = out.len();
        while p > 0 && out[p - 1].0 > e.0
            invariant
                p <= out@.len(),
                forall|k: int| p <= k < out@.len() ==> #[trigger] out@[k].0 > e.0,
            decreases p,
        {
            p = p - 1;
        }
        let ghost before = out@;
        assert(forall|x: int| covers(before, x) <==> covers(v@.take(i as int), x));
        out.insert(p, e);
        proof {
            assert(out@ =~= before.take(p as int) + seq![e] + before.skip(p as int));
            assert(before =~= before.take(p as int) + before.skip(p as int));
            assert forall|x: int| covers(out@, x) <==> covers(v@.take(i + 1), x) by {
                lemma_covers_concat(before.take(p as int) + seq![e], before.skip(p as int), x);
                lemma_covers_concat(before.take(p as int), seq![e], x);
                lemma_covers_concat(before.take(p as int), before.skip(p as int), x);
                assert(seq![e].drop_last() =~= Seq::<(u32, u32)>::empty());
                assert(!covers(Seq::<(u32, u32)>::empty(), x));
                assert(seq![e].last() == e);
                assert(v@.take(i + 1).drop_last() =~= v@.take(i as int));
                assert(v@.take(i + 1).last() == e);
            }
            assert forall|k: int, l: int| 0 <= k < l < out@.len() implies #[trigger] out@[k].0
                <= #[trigger] out@[l].0 by {
                if l < p {
                } else if l == p {
                    if k < p {
                        assert(before[k].0 <= before[p - 1].0);
                    }
                } else if k < p {
                    if p > 0 {
                        assert(before[k].0 <= before[p - 1].0);
                    }
                    assert(before[l - 1].0 > e.0);
                } else if k == p {
                    assert(before[l - 1].0 > e.0);
                } else {
                    assert(before[k - 1].0 <= before[l - 1].0);
                }
            }
            assert(v@[i as int].0 < v@[i as int].1);
        }
        i = i + 1;
    }
    assert(v@.take(v@.len() as int) =~= v@);
    out
}

/// Sorted spans merged where they overlap or touch.
fn merge_spans(v: &Vec<(u32, u32)>) -> (r: Vec<(u32, u32)>)
    requires
        sorted_by_start(v@),
        nonempty_spans(v@),
    ensures
        canonical(r@),
        forall|x: int| covers(r@, x) <==> covers(v@, x),
{
    let mut out: Vec<(u32, u32)> = Vec::new();
    let mut i: usize = 0;
    while i < v.len()
        invariant
            i <= v@.len(),
            sorted_by_start(v@),
            nonempty_spans(v@),
            canonical(out@),
            i == 0 ==> out@.len() == 0,
            i > 0 ==> out@.len() > 0 && out@.last().0 <= v@[i - 1].0,
            forall|x: int| covers(out@, x) <==> covers(v@.take(i as int), x),
        decreases v@.len() - i,
    {
        let (s, e) = v[i];
        let n = out.len();
        let ghost before = out@;
        proof {
            assert(v@.take(i + 1).drop_last() =~= v@.take(i as int));
            assert(v@.take(i + 1).last() == (s, e));
            assert(forall|x: int| covers(before, x) <==> covers(v@.take(i as int), x));
            assert(forall|x: int| #[trigger] covers(v@.take(i + 1), x) <==> (covers(before, x) || (s <= x < e)));
        }
        if n > 0 && s <= out[n - 1].1 {
            let (ls, le) = out[n - 1];
            proof {
                if i > 0 {
                    assert(v@[i - 1].0 <= v@[i as int].0);
                }
            }
            if e > le {
                out.set(n - 1, (ls, e));
                proof {
                    assert(out@.drop_last() =~= before.drop_last());
                    assert(out@.last() == (ls, e));
                    assert(ls <= s);
                    assert forall|k: int| 0 <= k < out@.len() implies #[trigger] out@[k].0 < out@[k].1 by {
                        if k < n - 1 {
                            assert(out@[k] == before[k]);
                        }
                    }
                    assert forall|k: int, l: int| 0 <= k < l < out@.len() implies #[trigger] out@[k].1
                        < #[trigger] out@[l].0 by {
                        assert(before[k].1 < before[l].0);
                        assert(out@[k] == before[k]);
                    }
                    assert forall|x: int| #[trigger] covers(out@, x) <==> covers(v@.take(i + 1), x) by {
                        assert(covers(before, x) == (covers(before.drop_last(), x) || (ls <= x < le)));
                    }
                }
            } else {
                proof {
                    assert forall|x: int| #[trigger] covers(out@, x) <==> covers(v@.take(i + 1), x) by {
                        assert(covers(before, x) == (covers(before.drop_last(), x) || (ls <= x < le)));
                    }
                }
            }
        } else {
            out.push((s, e));
            proof {
                assert(out@.drop_last() =~= before);
                assert(out@.last() == (s, e));
                assert forall|k: int| 0 <= k < out@.len() implies #[trigger] out@[k].0 < out@[k].1 by {
                    if k < n {
                        assert(out@[k] == before[k]);
                    }
                }
                assert forall|k: int, l: int| 0 <= k < l < out@.len() implies #[trigger] out@[k].1
                    < #[trigger] out@[l].0 by {
                    if l == n {
                        if k < n - 1 {
                            assert(before[k].1 < before[n - 1].0);
                            assert(before[n - 1].0 < before[n - 1].1);
                        }
                    } else {
                        assert(before[k].1 < before[l].0);
                    }
                }
                assert(v@[i as int].0 < v@[i as int].1);
                assert forall|x: int| #[trigger] covers(out@, x) <==> covers(v@.take(i + 1), x) by {}
            }
        }
        i = i + 1;
    }
    assert(v@.take(v@.len() as int) =~= v@);
    out
}

/// The normalized spans of the configured windows: for each day from Monday
/// to Sunday, the fewest spans that cover the minutes of its windows.
pub fn normalize_spans(ws: &Vec<MaintenanceWindowConfig>) -> (r: Vec<(Weekday, u32, u32)>)
    ensures
        normalized_for(windows_view(ws@), r@),
{
    let days = [
        Weekday::Mon,
        Weekday::Tue,
        Weekday::Wed,
        Weekday::Thu,
        Weekday::Fri,
        Weekday::Sat,
        Weekday::Sun,
    ];
    let ghost wv = windows_view(ws@);
    let mut r: Vec<(Weekday, u32, u32)> = Vec::new();
    let mut di: usize = 0;
    while di < 7
        invariant
            di <= 7,
            wv == windows_view(ws@),
            forall|k: int| 0 <= k < 7 ==> day_index(#[trigger] days@[k]) == k,
            forall|i: int, j: int|
                0 <= i < j < r@.len() ==> day_index(#[trigger] r@[i].0) <= day_index(#[trigger] r@[j].0),
            forall|k: int| 0 <= k < r@.len() ==> day_index(#[trigger] r@[k].0) < di,
            forall|d: Weekday| day_index(d) < di ==> canonical(#[trigger] day_part(r@, d)),
            forall|d: Weekday, x: int|
                day_index(d) < di ==> (#[trigger] covers(day_part(r@, d), x) <==> covers(spans_on(wv, d), x)),
            forall|d: Weekday| day_index(d) >= di ==> #[trigger] day_part(r@, d) == Seq::<(u32, u32)>::empty(),
        decreases 7 - di,
    {
        let d = days[di];
        let spans = spans_of_day(ws, d);
        let sorted = sort_spans(&spans);
        let merged = merge_spans(&sorted);
        let ghost r0 = r@;
        let mut j: usize = 0;
        while j < merged.len()
            invariant
                j <= merged@.len(),
                day_index(d) == di,
                di < 7,
                r0.len() <= r@.len(),
                forall|k: int| 0 <= k < r0.len() ==> #[trigger] r@[k] == r0[k],
                forall|k: int| r0.len() <= k < r@.len() ==> #[trigger] r@[k].0 == d,
                forall|k: int| 0 <= k < r0.len() ==> day_index(#[trigger] r0[k].0) < di,
                forall|i: int, j: int|
                    0 <= i < j < r0.len() ==> day_index(#[trigger] r0[i].0) <= day_index(#[trigger] r0[j].0),
                day_part(r@, d) == merged@.take(j as int),
                forall|e: Weekday| e != d ==> #[trigger] day_part(r@, e) == day_part(r0, e),
            decreases merged@.len() - j,
        {
            let ghost rb = r@;
            r.push((d, merged[j].0, merged[j].1));
            proof {
                assert(r@.drop_last() =~= rb);
                assert(r@.last() == (d, merged@[j as int].0, merged@[j as int].1));
                assert(day_part(r@, d) == day_part(rb, d).push((merged@[j as int].0, merged@[j as int].1)));
                assert forall|e: Weekday| e != d implies #[trigger] day_part(r@, e) == day_part(r0, e) by {
                    assert(day_part(r@, e) == day_part(rb, e));
                }
                assert(merged@.take(j + 1) =~= merged@.take(j as int).push(merged@[j as int]));
            }
            j = j + 1;
        }
        proof {
            assert(merged@.take(merged@.len() as int) =~= merged@);
            assert forall|i: int, k: int| 0 <= i < k < r@.len() implies day_index(#[trigger] r@[i].0)
                <= day_index(#[trigger] r@[k].0) by {
                if k >= r0.len() {
                    if i < r0.len() {
                        assert(day_index(r0[i].0) < di);
                    }
                } else {
                    assert(r@[i] == r0[i]);
                    assert(r@[k] == r0[k]);
                }
            }
            assert forall|k: int| 0 <= k < r@.len() implies day_index(#[trigger] r@[k].0) < di + 1 by {
                if k < r0.len() {
                    assert(r@[k] == r0[k]);
                }
            }
        }
        di = di + 1;
    }
    proof {
        assert forall|d: Weekday| canonical(#[trigger] day_part(r@, d)) by {
            assert(day_index(d) < 7);
        }
        assert forall|d: Weekday, x: int| #[trigger] covers(day_part(r@, d), x) <==> covers(
            spans_on(wv, d),
            x,
        ) by {
            assert(day_index(d) < 7);
        }
    }
    r
}

proof fn lemma_day_part_witness(t: Seq<(Weekday, u32, u32)>, d: Weekday)
    ensures
        day_part(t, d).len() > 0 ==> exists|k: int| 0 <= k < t.len() && #[trigger] t[k].0 == d,
        day_part(t, d).len() <= t.len(),
    decreases t.len(),
{
    if t.len() > 0 {
        let p = t.drop_last();
        lemma_day_part_witness(p, d);
        if day_part(p, d).len() > 0 {
            let k = choose|k: int| 0 <= k < p.len() && #[trigger] p[k].0 == d;
            assert(t[k] == p[k]);
        }
        if t.last().0 == d {
            assert(t[t.len() - 1].0 == d);
        }
    }
}

proof fn lemma_day_index_injective(a: Weekday, b: Weekday)
    ensures
        day_index(a) == day_index(b) ==> a == b,
{
}

/// Normalized windows are determined by the configured ones: two results
/// that both meet the description of normalizing the same windows are the
/// same.
pub proof fn law_normalized_unique(ws: Seq<WindowText>, t1: Seq<(Weekday, u32, u32)>, t2: Seq<(Weekday, u32, u32)>)
    requires
        normalized_for(ws, t1),
        normalized_for(ws, t2),
    ensures
        t1 == t2,
{
    assert forall|d: Weekday| day_part(t1, d) == day_part(t2, d) by {
        assert(canonical(day_part(t1, d)));
        assert(canonical(day_part(t2, d)));
        assert forall|x: int| covers(day_part(t1, d), x) <==> covers(day_part(t2, d), x) by {
            assert(covers(day_part(t1, d), x) <==> covers(spans_on(ws, d), x));
            assert(covers(day_part(t2, d), x) <==> covers(spans_on(ws, d), x));
        }
        law_canonical_unique(day_part(t1, d), day_part(t2, d));
    }
    lemma_grouped_unique(t1, t2);
}

proof fn lemma_grouped_unique(t1: Seq<(Weekday, u32, u32)>, t2: Seq<(Weekday, u32, u32)>)
    requires
        forall|i: int, j: int|
            0 <= i < j < t1.len() ==> day_index(#[trigger] t1[i].0) <= day_index(#[trigger] t1[j].0),
        forall|i: int, j: int|
            0 <= i < j < t2.len() ==> day_index(#[trigger] t2[i].0) <= day_index(#[trigger] t2[j].0),
        forall|d: Weekday| #[trigger] day_part(t1, d) == day_part(t2, d),
    ensures
        t1 == t2,
    decreases t1.len() + t2.len(),
{
    if t1.len() == 0 || t2.len() == 0 {
        if t1.len() > 0 {
            let d = t1.last().0;
            assert(day_part(t1, d).len() > 0);
            lemma_day_part_witness(t2, d);
            assert(false);
        }
        if t2.len() > 0 {
            let d = t2.last().0;
            assert(day_part(t2, d).len() > 0);
            lemma_day_part_witness(t1, d);
            assert(false);
        }
        assert(t1 =~= t2);
    } else {
        let a = t1.last();
        let b = t2.last();
        assert(day_part(t1, a.0).len() > 0);
        lemma_day_part_witness(t2, a.0);
        let k = choose|k: int| 0 <= k < t2.len() && #[trigger] t2[k].0 == a.0;
        if k < t2.len() - 1 {
            assert(day_index(t2[k].0) <= day_index(t2[t2.len() - 1].0));
        }
        assert(day_part(t2, b.0).len() > 0);
        lemma_day_part_witness(t1, b.0);
        let j = choose|j: int| 0 <= j < t1.len() && #[trigger] t1[j].0 == b.0;
        if j < t1.len() - 1 {
            assert(day_index(t1[j].0) <= day_index(t1[t1.len() - 1].0));
        }
        lemma_day_index_injective(a.0, b.0);
        assert(a.0 == b.0);
        assert(day_part(t1, a.0).last() == (a.1, a.2));
        assert(day_part(t2, b.0).last() == (b.1, b.2));
        assert(a == b);
        let p1 = t1.drop_last();
        let p2 = t2.drop_last();
        assert forall|d: Weekday| #[trigger] day_part(p1, d) == day_part(p2, d) by {
            if d == a.0 {
                assert(day_part(t1, d) == day_part(p1, d).push((a.1, a.2)));
                assert(day_part(t2, d) == day_part(p2, d).push((b.1, b.2)));
                assert(day_part(p1, d) =~= day_part(t1, d).drop_last());
                assert(day_part(p2, d) =~= day_part(t2, d).drop_last());
            }
        }
        assert forall|i: int, j: int| 0 <= i < j < p1.len() implies day_index(#[trigger] p1[i].0)
            <= day_index(#[trigger] p1[j].0) by {
            assert(t1[i] == p1[i] && t1[j] == p1[j]);
        }
        assert forall|i: int, j: int| 0 <= i < j < p2.len() implies day_index(#[trigger] p2[i].0)
            <= day_index(#[trigger] p2[j].0) by {
            assert(t2[i] == p2[i] && t2[j] == p2[j]);
        }
        lemma_grouped_unique(p1, p2);
        assert(t1 =~= p1.push(a));
        assert(t2 =~= p2.push(b));
    }
}

// ------------------------------------------------------------------
// Windows written back
// ------------------------------------------------------------------

/// The windows used when none is configured or none can be read: Friday
/// 05:00-07:00, Saturday 19:15-21:15 and Sunday 19:15-20:45.
pub open spec fn default_windows() -> Seq<WindowText> {
    seq![
        ("Fri"@, "05:00"@, "07:00"@),
        ("Sat"@, "19:15"@, "21:15"@),
        ("Sun"@, "19:15"@, "20:45"@),
    ]
}

fn window(weekday: &str, start: &str, end: &str) -> (r: MaintenanceWindowConfig)
    ensures
        r@ == (weekday@, start@, end@),
{
    MaintenanceWindowConfig {
        weekday: String::from_str(weekday),
        start_time: String::from_str(start),
        end_time: String::from_str(end),
    }
}

pub fn default_maintenance_windows() -> (r: Vec<MaintenanceWindowConfig>)
    ensures
        windows_view(r@) == default_windows(),
{
    let mut r: Vec<MaintenanceWindowConfig> = Vec::new();
    r.push(window("Fri", "05:00", "07:00"));
    r.push(window("Sat", "19:15", "21:15"));
    r.push(window("Sun", "19:15", "20:45"));
    assert(windows_view(r@) =~= default_windows());
    r
}

/// Spans written back as windows: the day's short name and `HH:MM` times.
pub open spec fn rendered(t: Seq<(Weekday, u32, u32)>) -> Seq<WindowText> {
    t.map_values(|x: (Weekday, u32, u32)| (weekday_short(x.0), hhmm_text(x.1), hhmm_text(x.2)))
}

pub fn render_windows(spans: &Vec<(Weekday, u32, u32)>) -> (r: Vec<MaintenanceWindowConfig>)
    ensures
        windows_view(r@) == rendered(spans@),
{
    let mut r: Vec<MaintenanceWindowConfig> = Vec::new();
    let mut i: usize = 0;
    while i < spans.len()
        invariant
            i <= spans@.len(),
            r@.len() == i,
            windows_view(r@) == rendered(spans@.take(i as int)),
        decreases spans@.len() - i,
    {
        let (d, s, e) = spans[i];
        let w = MaintenanceWindowConfig {
            weekday: String::from_str(crate::config::weekday_to_short(d)),
            start_time: crate::config::minutes_to_hhmm(s),
            end_time: crate::config::minutes_to_hhmm(e),
        };
        let ghost before = r@;
        let ghost wview = w@;
        r.push(w);
        proof {
            assert(r@ =~= before.push(r@[i as int]));
            assert(r@[i as int]@ == wview);
            assert forall|k: int| 0 <= k < i implies #[trigger] windows_view(r@)[k] == rendered(
                spans@.take(i + 1),
            )[k] by {
                assert(windows_view(before)[k] == rendered(spans@.take(i as int))[k]);
                assert(r@[k] == before[k]);
            }
        }
        i = i + 1;
        assert(windows_view(r@) =~= rendered(spans@.take(i as int)));
    }
    assert(spans@.take(spans@.len() as int) =~= spans@);
    r
}

/// The configured windows normalized: with none configured, or none that
/// can be read, the defaults; else each day's windows merged where they
/// overlap or touch, days from Monday to Sunday.
pub fn normalize_maintenance_windows(ws: &Vec<MaintenanceWindowConfig>) -> (r: Vec<MaintenanceWindowConfig>)
    ensures
        ws@.len() == 0 ==> windows_view(r@) == default_windows(),
        ws@.len() > 0 ==> exists|t: Seq<(Weekday, u32, u32)>|
            normalized_for(windows_view(ws@), t) && windows_view(r@) == (if t.len() == 0 {
                default_windows()
            } else {
                rendered(t)
            }),
{
    if ws.len() == 0 {
        return default_maintenance_windows();
    }
    let spans = normalize_spans(ws);
    if spans.len() == 0 {
        default_maintenance_windows()
    } else {
        render_windows(&spans)
    }
}

/// A readable window as its day and its two times, even when empty.
pub open spec fn window_times(w: WindowText) -> Option<(Weekday, u32, u32, u32, u32)> {
    match (
        weekday_named(w.0),
        hhmm_of(vstd::utf8::encode_utf8(w.1)),
        hhmm_of(vstd::utf8::encode_utf8(w.2)),
    ) {
        (Some(d), Some((sh, sm)), Some((eh, em))) => Some((d, sh, sm, eh, em)),
        _ => None,
    }
}

/// The readable windows, in order, as days and times.
pub open spec fn readable_windows(ws: Seq<WindowText>) -> Seq<(Weekday, u32, u32, u32, u32)>
    decreases ws.len(),
{
    if ws.len() == 0 {
        seq![]
    } else {
        match window_times(ws.last()) {
            Some(t) => readable_windows(ws.drop_last()).push(t),
            None => readable_windows(ws.drop_last()),
        }
    }
}

/// The windows that can be read, as days and times, in order.
pub fn parse_maintenance_windows(ws: &Vec<MaintenanceWindowConfig>) -> (r: Vec<(Weekday, u32, u32, u32, u32)>)
    ensures
        r@ == readable_windows(windows_view(ws@)),
{
    let ghost wv = windows_view(ws@);
    let mut r: Vec<(Weekday, u32, u32, u32, u32)> = Vec::new();
    let mut i: usize = 0;
    while i < ws.len()
        invariant
            i <= ws@.len(),
            wv == windows_view(ws@),
            wv.len() == ws@.len(),
            r@ == readable_windows(wv.take(i as int)),
        decreases ws@.len() - i,
    {
        proof {
            assert(wv.take(i + 1).drop_last() =~= wv.take(i as int));
            assert(wv.take(i + 1).last() == ws@[i as int]@);
        }
        let w = &ws[i];
        if let Some(d) = crate::config::parse_weekday(w.weekday.as_str()) {
            if let Some((sh, sm)) = crate::config::parse_hhmm_strict(w.start_time.as_str()) {
                if let Some((eh, em)) = crate::config::parse_hhmm_strict(w.end_time.as_str()) {
                    r.push((d, sh, sm, eh, em));
                }
            }
        }
        i = i + 1;
    }
    assert(wv.take(ws@.len() as int) =~= wv);
    r
}

} // verus!
