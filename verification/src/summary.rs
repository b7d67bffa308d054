//! The summary table: per-genre totals and year ranges derived from the
//! trend table, and the fixed-width console report lines.

use vstd::prelude::*;
use crate::trend::{TrendCell, TrendTable};
use crate::decimal::{dec_chars, int_dec_chars, u64_to_dec, i64_to_dec};

verus! {

/// One summary row: a genre's total count and first and last year seen.
pub struct GenreStat {
    pub genre: String,
    pub count: usize,
    pub start_year: i32,
    pub end_year: i32,
}

/// The summary table, one entry per genre.
pub struct SummaryTable {
    pub entries: Vec<GenreStat>,
}

/// Whether some cell carries the genre.
pub open spec fn genre_present(cells: Seq<TrendCell>, g: Seq<char>) -> bool {
    exists|i: int| 0 <= i < cells.len() && (#[trigger] cells[i]).genre@ == g
}

/// Sum of the counts of the genre's cells, over all years.
pub open spec fn genre_total(cells: Seq<TrendCell>, g: Seq<char>) -> int
    decreases cells.len(),
{
    if cells.len() == 0 {
        0
    } else {
        genre_total(cells.drop_last(), g) + if cells.last().genre@ == g {
            cells.last().count as int
        } else {
            0int
        }
    }
}

/// Least year among the genre's cells; meaningful only when the genre is
/// present.
pub open spec fn genre_min_year(cells: Seq<TrendCell>, g: Seq<char>) -> int
    decreases cells.len(),
{
    if cells.len() == 0 {
        0
    } else {
        let rest = cells.drop_last();
        let c = cells.last();
        if c.genre@ == g {
            if genre_present(rest, g) {
                let m = genre_min_year(rest, g);
                if m <= c.year as int {
                    m
                } else {
                    c.year as int
                }
            } else {
                c.year as int
            }
        } else {
            genre_min_year(rest, g)
        }
    }
}

/// Greatest year among the genre's cells; meaningful only when the genre is
/// present.
pub open spec fn genre_max_year(cells: Seq<TrendCell>, g: Seq<char>) -> int
    decreases cells.len(),
{
    if cells.len() == 0 {
        0
    } else {
        let rest = cells.drop_last();
        let c = cells.last();
        if c.genre@ == g {
            if genre_present(rest, g) {
                let m = genre_max_year(rest, g);
                if m >= c.year as int {
                    m
                } else {
                    c.year as int
                }
            } else {
                c.year as int
            }
        } else {
            genre_max_year(rest, g)
        }
    }
}

/// Sum of all counts in a cell sequence.
pub open spec fn total_counts(cells: Seq<TrendCell>) -> int
    decreases cells.len(),
{
    if cells.len() == 0 {
        0
    } else {
        total_counts(cells.drop_last()) + cells.last().count as int
    }
}

/// Whether the summary holds an entry for the genre.
pub open spec fn summary_has(entries: Seq<GenreStat>, g: Seq<char>) -> bool {
    exists|i: int| 0 <= i < entries.len() && (#[trigger] entries[i]).genre@ == g
}

impl SummaryTable {
    /// One entry per genre.
    pub open spec fn wf(self) -> bool {
        forall|i: int, j: int|
            0 <= i < j < self.entries@.len() ==> (#[trigger] self.entries@[i]).genre@ != (
            #[trigger] self.entries@[j]).genre@
    }
}

proof fn lemma_genre_total_nonneg(cells: Seq<TrendCell>, g: Seq<char>)
    ensures
        0 <= genre_total(cells, g) <= total_counts(cells),
    decreases cells.len(),
{
    if cells.len() > 0 {
        lemma_genre_total_nonneg(cells.drop_last(), g);
    }
}

proof fn lemma_genre_total_absent(cells: Seq<TrendCell>, g: Seq<char>)
    requires
        !genre_present(cells, g),
    ensures
        genre_total(cells, g) == 0,
    decreases cells.len(),
{
    if cells.len() > 0 {
        let rest = cells.drop_last();
        assert(forall|i: int| 0 <= i < rest.len() ==> rest[i] == #[trigger] cells[i]);
        assert(!genre_present(rest, g)) by {
            if genre_present(rest, g) {
                let w = choose|i: int| 0 <= i < rest.len() && (#[trigger] rest[i]).genre@ == g;
                assert(cells[w].genre@ == g);
            }
        }
        lemma_genre_total_absent(rest, g);
        assert(cells.last() == cells[cells.len() - 1]);
        assert(cells.last().genre@ != g);
    }
}

proof fn lemma_total_counts_prefix(cells: Seq<TrendCell>, j: int)
    requires
        0 <= j <= cells.len(),
    ensures
        total_counts(cells.take(j)) <= total_counts(cells),
    decreases cells.len() - j,
{
    if j < cells.len() {
        lemma_total_counts_prefix(cells, j + 1);
        let t = cells.take(j + 1);
        assert(t.drop_last() =~= cells.take(j));
        assert(t.last() == cells[j]);
    } else {
        assert(cells.take(j) =~= cells);
    }
}

/// Law: the genre's least year is the year of one of its cells, and no cell
/// of the genre lies before it.
pub proof fn lemma_min_year_is_least(cells: Seq<TrendCell>, g: Seq<char>)
    requires
        genre_present(cells, g),
    ensures
        exists|i: int|
            0 <= i < cells.len() && (#[trigger] cells[i]).genre@ == g && cells[i].year as int
                == genre_min_year(cells, g),
        forall|i: int|
            0 <= i < cells.len() && (#[trigger] cells[i]).genre@ == g ==> genre_min_year(cells, g)
                <= cells[i].year as int,
    decreases cells.len(),
{
    let rest = cells.drop_last();
    let c = cells.last();
    assert(forall|i: int| 0 <= i < rest.len() ==> rest[i] == #[trigger] cells[i]);
    assert(c == cells[cells.len() - 1]);
    if c.genre@ == g {
        if genre_present(rest, g) {
            lemma_min_year_is_least(rest, g);
            let w = choose|i: int|
                0 <= i < rest.len() && (#[trigger] rest[i]).genre@ == g && rest[i].year as int
                    == genre_min_year(rest, g);
            assert(cells[w] == rest[w]);
        }
    } else {
        assert(genre_present(rest, g)) by {
            let k = choose|i: int|
                0 <= i < cells.len() && (#[trigger] cells[i]).genre@ == g;
            assert(rest[k] == cells[k]);
        }
        lemma_min_year_is_least(rest, g);
        let w = choose|i: int|
            0 <= i < rest.len() && (#[trigger] rest[i]).genre@ == g && rest[i].year as int
                == genre_min_year(rest, g);
        assert(cells[w] == rest[w]);
    }
}

/// Law: the genre's greatest year is the year of one of its cells, and no
/// cell of the genre lies after it.
pub proof fn lemma_max_year_is_greatest(cells: Seq<TrendCell>, g: Seq<char>)
    requires
        genre_present(cells, g),
    ensures
        exists|i: int|
            0 <= i < cells.len() && (#[trigger] cells[i]).genre@ == g && cells[i].year as int
                == genre_max_year(cells, g),
        forall|i: int|
            0 <= i < cells.len() && (#[trigger] cells[i]).genre@ == g ==> genre_max_year(cells, g)
                >= cells[i].year as int,
    decreases cells.len(),
{
    let rest = cells.drop_last();
    let c = cells.last();
    assert(forall|i: int| 0 <= i < rest.len() ==> rest[i] == #[trigger] cells[i]);
    assert(c == cells[cells.len() - 1]);
    if c.genre@ == g {
        if genre_present(rest, g) {
            lemma_max_year_is_greatest(rest, g);
            let w = choose|i: int|
                0 <= i < rest.len() && (#[trigger] rest[i]).genre@ == g && rest[i].year as int
                    == genre_max_year(rest, g);
            assert(cells[w] == rest[w]);
        }
    } else {
        assert(genre_present(rest, g)) by {
            let k = choose|i: int|
                0 <= i < cells.len() && (#[trigger] cells[i]).genre@ == g;
            assert(rest[k] == cells[k]);
        }
        lemma_max_year_is_greatest(rest, g);
        let w = choose|i: int|
            0 <= i < rest.len() && (#[trigger] rest[i]).genre@ == g && rest[i].year as int
                == genre_max_year(rest, g);
        assert(cells[w] == rest[w]);
    }
}

/// Reduces the trend table: per genre, the total count over all years and the
/// first and last year with a cell.
pub fn compute_summary_statistics(trend: &TrendTable) -> (r: SummaryTable)
    requires
        total_counts(trend.cells@) <= usize::MAX,
    ensures
        r.wf(),
        forall|g: Seq<char>| genre_present(trend.cells@, g) <==> summary_has(r.entries@, g),
        forall|k: int|
            0 <= k < r.entries@.len() ==> {
                let e = #[trigger] r.entries@[k];
                e.count == genre_total(trend.cells@, e.genre@) && e.start_year as int
                    == genre_min_year(trend.cells@, e.genre@) && e.end_year as int
                    == genre_max_year(trend.cells@, e.genre@)
            },
{
    let cells = &trend.cells;
    let mut stats = SummaryTable { entries: Vec::new() };
    proof {
        assert(cells@.take(0) =~= Seq::<TrendCell>::empty());
    }
    let mut i: usize = 0;
    while i < cells.len()
        invariant
            0 <= i <= cells@.len(),
            total_counts(cells@) <= usize::MAX,
            stats.wf(),
            forall|g: Seq<char>|
                genre_present(cells@.take(i as int), g) <==> summary_has(stats.entries@, g),
            forall|k: int|
                0 <= k < stats.entries@.len() ==> {
                    let e = #[trigger] stats.entries@[k];
                    e.count == genre_total(cells@.take(i as int), e.genre@) && e.start_year as int
                        == genre_min_year(cells@.take(i as int), e.genre@) && e.end_year as int
                        == genre_max_year(cells@.take(i as int), e.genre@)
                },
        decreases cells@.len() - i,
    {
        let ghost pre = cells@.take(i as int);
        let ghost nxt = cells@.take(i + 1);
        proof {
            assert(nxt.drop_last() =~= pre);
            assert(nxt.last() == cells@[i as int]);
        }
        let year = cells[i].year;
        let cnt = cells[i].count;
        let n = stats.entries.len();
        let mut k: usize = 0;
        loop
            invariant
                0 <= k <= n,
                n == stats.entries@.len(),
                0 <= i < cells@.len(),
                forall|j: int|
                    0 <= j < k ==> (#[trigger] stats.entries@[j]).genre@ != cells@[i as int].genre@,
            ensures
                0 <= k <= n,
                k < n ==> stats.entries@[k as int].genre@ == cells@[i as int].genre@,
                forall|j: int|
                    0 <= j < k ==> (#[trigger] stats.entries@[j]).genre@ != cells@[i as int].genre@,
            decreases n - k,
        {
            if k == n {
                break;
            }
            if stats.entries[k].genre == cells[i].genre {
                break;
            }
            k = k + 1;
        }
        let ghost olde = stats.entries@;
        if k < n {
            proof {
                lemma_genre_total_nonneg(pre, cells@[i as int].genre@);
                lemma_genre_total_nonneg(nxt, cells@[i as int].genre@);
                lemma_total_counts_prefix(cells@, i + 1);
            }
            proof {
                assert(summary_has(olde, olde[k as int].genre@));
                assert(genre_present(pre, olde[k as int].genre@));
                assert(genre_total(nxt, cells@[i as int].genre@) == genre_total(
                    pre,
                    cells@[i as int].genre@,
                ) + cells@[i as int].count);
            }
            let e = &stats.entries[k];
            let upd = GenreStat {
                genre: cells[i].genre.clone(),
                count: e.count + cnt,
                start_year: if e.start_year <= year {
                    e.start_year
                } else {
                    year
                },
                end_year: if e.end_year >= year {
                    e.end_year
                } else {
                    year
                },
            };
            stats.entries.set(k, upd);
            proof {
                assert(stats.entries@[k as int].genre@ == olde[k as int].genre@);
                assert forall|a: int, b: int|
                    0 <= a < b < stats.entries@.len() implies (#[trigger] stats.entries@[a]).genre@
                    != (#[trigger] stats.entries@[b]).genre@ by {
                    assert(olde[a].genre@ != olde[b].genre@);
                    if a != k {
                        assert(stats.entries@[a] == olde[a]);
                    }
                    if b != k {
                        assert(stats.entries@[b] == olde[b]);
                    }
                }
                assert forall|g: Seq<char>|
                    genre_present(nxt, g) <==> summary_has(stats.entries@, g) by {
                    if genre_present(nxt, g) {
                        let w = choose|j: int|
                            0 <= j < nxt.len() && (#[trigger] nxt[j]).genre@ == g;
                        if w < i {
                            assert(pre[w] == nxt[w]);
                            assert(pre[w].genre@ == g);
                            assert(genre_present(pre, g));
                            assert(summary_has(olde, g));
                            let v = choose|j: int|
                                0 <= j < olde.len() && (#[trigger] olde[j]).genre@ == g;
                            if v == k {
                                assert(stats.entries@[k as int].genre@ == g);
                            } else {
                                assert(stats.entries@[v] == olde[v]);
                                assert(stats.entries@[v].genre@ == g);
                            }
                            assert(summary_has(stats.entries@, g));
                        } else {
                            assert(nxt[w].genre@ == cells@[i as int].genre@);
                            assert(stats.entries@[k as int].genre@ == g);
                            assert(summary_has(stats.entries@, g));
                        }
                    }
                    if summary_has(stats.entries@, g) {
                        let v = choose|j: int|
                            0 <= j < stats.entries@.len() && (#[trigger] stats.entries@[j]).genre@
                                == g;
                        if v == k {
                            assert(stats.entries@[k as int].genre@ == olde[k as int].genre@);
                            assert(nxt[i as int].genre@ == g);
                            assert(genre_present(nxt, g));
                        } else {
                            assert(stats.entries@[v] == olde[v]);
                            assert(olde[v].genre@ == g);
                            assert(summary_has(olde, g));
                            assert(genre_present(pre, g));
                            let w = choose|j: int|
                                0 <= j < pre.len() && (#[trigger] pre[j]).genre@ == g;
                            assert(nxt[w] == pre[w]);
                            assert(nxt[w].genre@ == g);
                            assert(genre_present(nxt, g));
                        }
                    }
                }
                assert forall|j: int|
                    0 <= j < stats.entries@.len() implies {
                    let e2 = #[trigger] stats.entries@[j];
                    e2.count == genre_total(nxt, e2.genre@) && e2.start_year as int
                        == genre_min_year(nxt, e2.genre@) && e2.end_year as int == genre_max_year(
                        nxt,
                        e2.genre@,
                    )
                } by {
                    if j == k {
                        assert(olde[k as int].genre@ == cells@[i as int].genre@);
                        assert(summary_has(olde, olde[k as int].genre@));
                        assert(genre_present(pre, cells@[i as int].genre@));
                        assert(stats.entries@[j].genre@ == cells@[i as int].genre@);
                    } else {
                        assert(stats.entries@[j] == olde[j]);
                        assert(olde[j].genre@ != olde[k as int].genre@);
                    }
                }
            }
        } else {
            proof {
                lemma_genre_total_nonneg(pre, cells@[i as int].genre@);
                lemma_genre_total_nonneg(nxt, cells@[i as int].genre@);
                lemma_total_counts_prefix(cells@, i + 1);
                assert(!genre_present(pre, cells@[i as int].genre@)) by {
                    if genre_present(pre, cells@[i as int].genre@) {
                        assert(summary_has(stats.entries@, cells@[i as int].genre@));
                        let v = choose|j: int|
                            0 <= j < stats.entries@.len() && (#[trigger] stats.entries@[j]).genre@
                                == cells@[i as int].genre@;
                        assert(stats.entries@[v].genre@ == cells@[i as int].genre@);
                    }
                }
                lemma_genre_total_absent(pre, cells@[i as int].genre@);
            }
            let fresh = GenreStat {
                genre: cells[i].genre.clone(),
                count: cnt,
                start_year: year,
                end_year: year,
            };
            stats.entries.push(fresh);
            proof {
                assert forall|g: Seq<char>|
                    genre_present(nxt, g) <==> summary_has(stats.entries@, g) by {
                    if genre_present(nxt, g) {
                        let w = choose|j: int|
                            0 <= j < nxt.len() && (#[trigger] nxt[j]).genre@ == g;
                        if w < i {
                            assert(pre[w] == nxt[w]);
                            assert(pre[w].genre@ == g);
                            assert(genre_present(pre, g));
                            assert(summary_has(olde, g));
                            let v = choose|j: int|
                                0 <= j < olde.len() && (#[trigger] olde[j]).genre@ == g;
                            assert(stats.entries@[v] == olde[v]);
                            assert(stats.entries@[v].genre@ == g);
                            assert(summary_has(stats.entries@, g));
                        } else {
                            assert(nxt[w].genre@ == cells@[i as int].genre@);
                            assert(stats.entries@[olde.len() as int].genre@ == g);
                            assert(summary_has(stats.entries@, g));
                        }
                    }
                    if summary_has(stats.entries@, g) {
                        let v = choose|j: int|
                            0 <= j < stats.entries@.len() && (#[trigger] stats.entries@[j]).genre@
                                == g;
                        if v == olde.len() {
                            assert(nxt[i as int].genre@ == g);
                            assert(genre_present(nxt, g));
                        } else {
                            assert(stats.entries@[v] == olde[v]);
                            assert(olde[v].genre@ == g);
                            assert(summary_has(olde, g));
                            assert(genre_present(pre, g));
                            let w = choose|j: int|
                                0 <= j < pre.len() && (#[trigger] pre[j]).genre@ == g;
                            assert(nxt[w] == pre[w]);
                            assert(nxt[w].genre@ == g);
                            assert(genre_present(nxt, g));
                        }
                    }
                }
                assert forall|j: int|
                    0 <= j < stats.entries@.len() implies {
                    let e2 = #[trigger] stats.entries@[j];
                    e2.count == genre_total(nxt, e2.genre@) && e2.start_year as int
                        == genre_min_year(nxt, e2.genre@) && e2.end_year as int == genre_max_year(
                        nxt,
                        e2.genre@,
                    )
                } by {
                    if j < olde.len() {
                        assert(stats.entries@[j] == olde[j]);
                        assert(olde[j].genre@ != cells@[i as int].genre@) by {
                            if olde[j].genre@ == cells@[i as int].genre@ {
                                assert(summary_has(olde, cells@[i as int].genre@));
                                assert(genre_present(pre, cells@[i as int].genre@));
                            }
                        }
                    } else {
                        assert(!genre_present(pre, cells@[i as int].genre@));
                    }
                }
                assert forall|a: int, b: int|
                    0 <= a < b < stats.entries@.len() implies (#[trigger] stats.entries@[a]).genre@
                    != (#[trigger] stats.entries@[b]).genre@ by {
                    if b == olde.len() {
                        assert(stats.entries@[a] == olde[a]);
                        if olde[a].genre@ == cells@[i as int].genre@ {
                            assert(summary_has(olde, cells@[i as int].genre@));
                            assert(genre_present(pre, cells@[i as int].genre@));
                        }
                    } else {
                        assert(stats.entries@[a] == olde[a]);
                        assert(stats.entries@[b] == olde[b]);
                    }
                }
            }
        }
        i = i + 1;
    }
    proof {
        assert(cells@.take(cells@.len() as int) =~= cells@);
    }
    stats
}

} // verus!
