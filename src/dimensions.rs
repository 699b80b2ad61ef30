use vstd::prelude::*;

verus! {

/// The values of `s` without repeats, each kept at its first occurrence.
pub open spec fn dedup_spec(s: Seq<usize>) -> Seq<usize>
    decreases s.len(),
{
    if s.len() == 0 {
        seq![]
    } else {
        let d = dedup_spec(s.drop_last());
        if d.contains(s.last()) {
            d
        } else {
            d.push(s.last())
        }
    }
}

/// Every (height, width) pair, enumerated height-major.
pub open spec fn cross_spec(heights: Seq<usize>, widths: Seq<usize>) -> Seq<(usize, usize)>
    decreases heights.len(),
{
    if heights.len() == 0 {
        seq![]
    } else {
        cross_spec(heights.drop_last(), widths) + widths.map_values(
            |w: usize| (heights.last(), w),
        )
    }
}

/// Removes repeated values, keeping the first occurrence of each in its place.
pub fn dedup_preserving_order(values: &[usize]) -> (r: Vec<usize>)
    ensures
        r@ == dedup_spec(values@),
{
    let mut r: Vec<usize> = Vec::new();
    let mut i: usize = 0;
    while i < values.len()
        invariant
            i <= values@.len(),
            r@ == dedup_spec(values@.take(i as int)),
        decreases values@.len() - i,
    {
        let v = values[i];
        let mut seen = false;
        let mut j: usize = 0;
        while j < r.len()
            invariant
                j <= r@.len(),
                seen == (exists|k: int| 0 <= k < j && r@[k] == v),
            decreases r@.len() - j,
        {
            if r[j] == v {
                seen = true;
            }
            j = j + 1;
        }
        proof {
            if seen {
                let k = choose|k: int| 0 <= k < j && r@[k] == v;
                assert(r@.contains(v));
            }
            assert(values@.take(i + 1).drop_last() == values@.take(i as int));
        }
        if !seen {
            r.push(v);
        }
        i = i + 1;
    }
    proof {
        assert(values@.take(i as int) == values@);
    }
    r
}

/// Builds one (height, width) pair per combination, height-major: for each
/// height in order, every width in order.
pub fn permute_dimensions(heights: &[usize], widths: &[usize]) -> (r: Vec<(usize, usize)>)
    ensures
        r@ == cross_spec(heights@, widths@),
{
    let mut r: Vec<(usize, usize)> = Vec::new();
    let mut i: usize = 0;
    while i < heights.len()
        invariant
            i <= heights@.len(),
            r@ == cross_spec(heights@.take(i as int), widths@),
        decreases heights@.len() - i,
    {
        let h = heights[i];
        let ghost before = r@;
        let mut j: usize = 0;
        while j < widths.len()
            invariant
                i < heights@.len(),
                h == heights@[i as int],
                j <= widths@.len(),
                r@ == before + widths@.take(j as int).map_values(|w: usize| (h, w)),
            decreases widths@.len() - j,
        {
            r.push((h, widths[j]));
            proof {
                assert(widths@.take(j + 1).map_values(|w: usize| (h, w)) == widths@.take(
                    j as int,
                ).map_values(|w: usize| (h, w)).push((h, widths@[j as int])));
            }
            j = j + 1;
        }
        proof {
            assert(widths@.take(j as int) == widths@);
            assert(heights@.take(i + 1).drop_last() == heights@.take(i as int));
            assert(heights@.take(i + 1).last() == h);
        }
        i = i + 1;
    }
    proof {
        assert(heights@.take(i as int) == heights@);
    }
    r
}

/// Deduplication keeps every value of the input and holds none twice.
pub proof fn lemma_dedup(s: Seq<usize>)
    ensures
        dedup_spec(s).no_duplicates(),
        forall|x: usize| dedup_spec(s).contains(x) <==> s.contains(x),
    decreases s.len(),
{
    if s.len() > 0 {
        let p = s.drop_last();
        lemma_dedup(p);
        let d = dedup_spec(p);
        assert forall|x: usize| dedup_spec(s).contains(x) <==> s.contains(x) by {
            if s.contains(x) {
                let k = choose|k: int| 0 <= k < s.len() && s[k] == x;
                if k < s.len() - 1 {
                    assert(p[k] == x);
                    assert(p.contains(x));
                    assert(d.contains(x));
                    let m = choose|m: int| 0 <= m < d.len() && d[m] == x;
                    if !d.contains(s.last()) {
                        assert(d.push(s.last())[m] == x);
                    }
                } else if !d.contains(s.last()) {
                    assert(d.push(s.last())[d.len() as int] == x);
                }
            }
            if dedup_spec(s).contains(x) {
                if d.contains(x) {
                    assert(p.contains(x));
                    let k = choose|k: int| 0 <= k < p.len() && p[k] == x;
                    assert(s[k] == x);
                } else {
                    let m = choose|m: int|
                        0 <= m < dedup_spec(s).len() && dedup_spec(s)[m] == x;
                    if m < d.len() {
                        assert(d.contains(x));
                    }
                    assert(x == s.last());
                    assert(s[s.len() - 1] == x);
                }
            }
        }
    }
}

proof fn lemma_cross_members(heights: Seq<usize>, widths: Seq<usize>, k: int)
    requires
        0 <= k < cross_spec(heights, widths).len(),
    ensures
        heights.contains(cross_spec(heights, widths)[k].0),
        widths.contains(cross_spec(heights, widths)[k].1),
    decreases heights.len(),
{
    let prev = cross_spec(heights.drop_last(), widths);
    if k < prev.len() {
        lemma_cross_members(heights.drop_last(), widths, k);
        let x = cross_spec(heights, widths)[k].0;
        let a = choose|a: int| 0 <= a < heights.drop_last().len() && heights.drop_last()[a] == x;
        assert(heights[a] == x);
    } else {
        assert(heights[heights.len() - 1] == heights.last());
        assert(widths[k - prev.len()] == cross_spec(heights, widths)[k].1);
    }
}

/// The jobs for heights `h` and widths `w` number |h| * |w|; the job at
/// position i * |w| + j is (h[i], w[j]); and when neither list repeats a
/// value, no pair occurs twice.
pub proof fn lemma_dimension_jobs(heights: Seq<usize>, widths: Seq<usize>)
    ensures
        cross_spec(heights, widths).len() == heights.len() * widths.len(),
        forall|i: int, j: int|
            0 <= i < heights.len() && 0 <= j < widths.len() ==> #[trigger] cross_spec(
                heights,
                widths,
            )[i * widths.len() + j] == (heights[i], widths[j]),
        heights.no_duplicates() && widths.no_duplicates() ==> cross_spec(
            heights,
            widths,
        ).no_duplicates(),
    decreases heights.len(),
{
    if heights.len() > 0 {
        let hp = heights.drop_last();
        lemma_dimension_jobs(hp, widths);
        let prev = cross_spec(hp, widths);
        let n = widths.len();
        assert(prev.len() == hp.len() * n);
        assert(heights.len() * n == hp.len() * n + n) by (nonlinear_arith)
            requires
                heights.len() == hp.len() + 1,
        ;
        assert forall|i: int, j: int| 0 <= i < heights.len() && 0 <= j < widths.len() implies
            #[trigger] cross_spec(heights, widths)[i * widths.len() + j] == (heights[i], widths[j]) by {
            if i < hp.len() {
                assert(i * n + j < hp.len() * n) by (nonlinear_arith)
                    requires
                        i < hp.len(),
                        j < n,
                ;
                assert(hp[i] == heights[i]);
                assert(cross_spec(hp, widths)[i * widths.len() + j] == (hp[i], widths[j]));
            } else {
                assert(i * n == hp.len() * n) by (nonlinear_arith)
                    requires
                        i == hp.len(),
                ;
            }
        }
        if heights.no_duplicates() && widths.no_duplicates() {
            let all = cross_spec(heights, widths);
            assert forall|a: int, b: int| 0 <= a < b < all.len() implies all[a] != all[b] by {
                if b < prev.len() {
                    assert(all[a] == prev[a] && all[b] == prev[b]);
                } else if a < prev.len() {
                    lemma_cross_members(hp, widths, a);
                    assert(all[a] == prev[a]);
                    assert(all[b].0 == heights.last());
                    if all[a].0 == heights.last() {
                        let x = choose|x: int| 0 <= x < hp.len() && hp[x] == heights.last();
                        assert(heights[x] == heights[heights.len() - 1]);
                    }
                } else {
                    assert(all[a].1 == widths[a - prev.len()]);
                    assert(all[b].1 == widths[b - prev.len()]);
                }
            }
        }
    }
}

} // verus!
