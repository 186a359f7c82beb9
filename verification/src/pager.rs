//! The pager: projects a scrollable line buffer onto a fixed-size viewport.
//! The computation here decides which lines fit; the caller writes them to
//! the terminal. A line is never clipped: when its wrapped row cost exceeds
//! the remaining budget, emission stops before it.

use vstd::prelude::*;
use vstd::string::*;

verus! {

/// The screen rows a line of `len` characters occupies in a viewport `width`
/// columns wide: the ceiling of `len / width`, at least one row even for an
/// empty line. A degenerate width counts as one column.
pub open spec fn row_cost(len: int, width: int) -> int {
    let w = if width < 1 {
        1int
    } else {
        width
    };
    if len <= 0 {
        1int
    } else {
        (len + w - 1) / w
    }
}

/// The lengths of a sequence of lines.
pub open spec fn lens_of(lines: Seq<Seq<char>>) -> Seq<int> {
    lines.map_values(|l: Seq<char>| l.len() as int)
}

/// How many leading lines of `lens` fit greedily in `budget` rows.
pub open spec fn fit_count(lens: Seq<int>, width: int, budget: int) -> int
    decreases lens.len(),
{
    if lens.len() == 0 {
        0
    } else if row_cost(lens[0], width) <= budget {
        1 + fit_count(lens.skip(1), width, budget - row_cost(lens[0], width))
    } else {
        0
    }
}

/// The rows a sequence of lines costs, in sum.
pub open spec fn total_cost(lens: Seq<int>, width: int) -> int
    decreases lens.len(),
{
    if lens.len() == 0 {
        0
    } else {
        row_cost(lens[0], width) + total_cost(lens.skip(1), width)
    }
}

/// `row_cost` is the clamped ceiling: at least one row, enough rows to cover
/// the whole line, and no row to spare (one row fewer would leave characters
/// over, unless the single mandatory row is already enough).
pub proof fn lemma_row_cost_is_ceiling(len: int, width: int)
    requires
        len >= 0,
    ensures
        ({
            let w = if width < 1 {
                1int
            } else {
                width
            };
            let r = row_cost(len, width);
            &&& r >= 1
            &&& len <= r * w
            &&& r > 1 ==> len > (r - 1) * w
        }),
{
    let w = if width < 1 {
        1int
    } else {
        width
    };
    if len > 0 {
        let r = (len + w - 1) / w;
        vstd::arithmetic::div_mod::lemma_fundamental_div_mod(len + w - 1, w);
        let m = (len + w - 1) % w;
        vstd::arithmetic::div_mod::lemma_mod_division_less_than_divisor(len + w - 1, w);
        assert(len + w - 1 == w * r + m);
        assert(0 <= m < w);
        assert(len == w * r + m - w + 1);
        assert(r >= 1) by (nonlinear_arith)
            requires
                len >= 1,
                w >= 1,
                0 <= m < w,
                len == w * r + m - w + 1,
        ;
        assert(len <= r * w && len > (r - 1) * w) by (nonlinear_arith)
            requires
                w >= 1,
                0 <= m < w,
                len == w * r + m - w + 1,
        ;
    }
}

/// The fit count never exceeds the number of lines.
pub proof fn lemma_fit_count_bounds(lens: Seq<int>, width: int, budget: int)
    ensures
        0 <= fit_count(lens, width, budget) <= lens.len(),
    decreases lens.len(),
{
    if lens.len() > 0 && row_cost(lens[0], width) <= budget {
        lemma_fit_count_bounds(lens.skip(1), width, budget - row_cost(lens[0], width));
    }
}

/// The rows a line of `len` characters consumes in a viewport `width` wide.
pub fn line_rows(len: usize, width: usize) -> (r: usize)
    ensures
        r == row_cost(len as int, width as int),
{
    let w: usize = if width < 1 {
        1
    } else {
        width
    };
    if len == 0 {
        1
    } else {
        let r = (len - 1) / w + 1;
        proof {
            vstd::arithmetic::div_mod::lemma_div_plus_one(len as int - 1, w as int);
        }
        r
    }
}

/// The lines visible in a viewport of `width` columns and `height` rows,
/// walking the buffer from `first_line`: each line costs its wrapped rows,
/// and a line whose cost exceeds the remaining budget stops the walk, so the
/// emitted lines never cost more than `height` rows in sum.
pub fn pager_rows(lines: &Vec<String>, first_line: usize, width: usize, height: usize) -> (rows:
    Vec<String>)
    ensures
        ({
            let dv = lines.deep_view();
            let start: int = if first_line as int <= dv.len() {
                first_line as int
            } else {
                dv.len() as int
            };
            let k = fit_count(lens_of(dv.skip(start)), width as int, height as int);
            &&& rows.deep_view() == dv.subrange(start, start + k)
            &&& total_cost(lens_of(rows.deep_view()), width as int) <= height as int
        }),
{
    let ghost dv = lines.deep_view();
    let start: usize = if first_line <= lines.len() {
        first_line
    } else {
        lines.len()
    };
    let mut rows: Vec<String> = Vec::new();
    let mut budget: usize = height;
    let mut i: usize = start;
    let mut stopped = false;
    proof {
        assert(rows.deep_view() =~~= dv.subrange(start as int, start as int));
        assert(lens_of(rows.deep_view()) =~= Seq::<int>::empty());
    }
    while !stopped && i < lines.len()
        invariant
            dv == lines.deep_view(),
            start <= i <= dv.len(),
            budget <= height,
            rows.deep_view() =~~= dv.subrange(start as int, i as int),
            total_cost(lens_of(rows.deep_view()), width as int) == height - budget,
            fit_count(lens_of(dv.skip(start as int)), width as int, height as int) == (i - start)
                + fit_count(lens_of(dv.skip(i as int)), width as int, budget as int),
            stopped ==> fit_count(lens_of(dv.skip(i as int)), width as int, budget as int) == 0,
        decreases dv.len() - i, (if stopped { 0int } else { 1int }),
    {
        let ghost rlens = lens_of(dv.skip(i as int));
        proof {
            assert(dv[i as int] == lines@[i as int]@);
            assert(rlens[0] == dv[i as int].len() as int);
            assert(rlens.skip(1) =~= lens_of(dv.skip(i + 1)));
        }
        let len_i = lines[i].as_str().unicode_len();
        let c = line_rows(len_i, width);
        if c > budget {
            stopped = true;
        } else {
            let ghost pre_rows = rows.deep_view();
            let ghost pre_lens = lens_of(pre_rows);
            rows.push(lines[i].clone());
            proof {
                assert(rows.deep_view() =~~= dv.subrange(start as int, i + 1));
                assert(lens_of(rows.deep_view()) =~= lens_of(dv.subrange(start as int, i as int))
                    + seq![dv[i as int].len() as int]);
                lemma_total_cost_snoc(
                    lens_of(dv.subrange(start as int, i as int)),
                    dv[i as int].len() as int,
                    width as int,
                );
            }
            budget -= c;
            i += 1;
        }
    }
    proof {
        if !stopped {
            assert(dv.skip(i as int) =~~= Seq::<Seq<char>>::empty());
            assert(lens_of(dv.skip(i as int)) =~= Seq::<int>::empty());
        }
        lemma_fit_count_bounds(lens_of(dv.skip(start as int)), width as int, height as int);
    }
    rows
}

/// Appending a line adds its cost to the total.
pub proof fn lemma_total_cost_snoc(lens: Seq<int>, last: int, width: int)
    ensures
        total_cost(lens + seq![last], width) == total_cost(lens, width) + row_cost(last, width),
    decreases lens.len(),
{
    if lens.len() == 0 {
        assert(lens + seq![last] =~= seq![last]);
        assert((seq![last]).skip(1) =~= Seq::<int>::empty());
        assert(total_cost(seq![last], width) == row_cost(last, width) + total_cost(
            (seq![last]).skip(1),
            width,
        ));
    } else {
        assert((lens + seq![last]).skip(1) =~= lens.skip(1) + seq![last]);
        assert((lens + seq![last])[0] == lens[0]);
        lemma_total_cost_snoc(lens.skip(1), last, width);
        assert(total_cost(lens + seq![last], width) == row_cost(lens[0], width) + total_cost(
            lens.skip(1) + seq![last],
            width,
        ));
        assert(total_cost(lens, width) == row_cost(lens[0], width) + total_cost(
            lens.skip(1),
            width,
        ));
    }
}

} // verus!
