//! The genre trend table: per-movie aggregation of (year, genre) counts.

use vstd::prelude::*;
use crate::fields::{release_year_spec, genre_names_spec, parse_release_year, parse_genres};

verus! {

/// One input record, already split into its raw fields.
pub struct Movie {
    pub id: String,
    pub title: String,
    pub genres: String,
    pub release_date: String,
}

/// One cell of the trend table: a year, a genre, and how many movies of that
/// year list the genre.
pub struct TrendCell {
    pub year: i32,
    pub genre: String,
    pub count: usize,
}

/// The trend table: a year/genre keyed collection of counts, held as a cell
/// list with unique keys.
pub struct TrendTable {
    pub cells: Vec<TrendCell>,
}

/// What one cell contributes to the count of (y, g).
pub open spec fn cell_contrib(c: TrendCell, y: i32, g: Seq<char>) -> int {
    if c.year == y && c.genre@ == g {
        c.count as int
    } else {
        0
    }
}

/// Total count carried for (y, g) by a cell sequence.
pub open spec fn count_in(cells: Seq<TrendCell>, y: i32, g: Seq<char>) -> int
    decreases cells.len(),
{
    if cells.len() == 0 {
        0
    } else {
        count_in(cells.drop_last(), y, g) + cell_contrib(cells.last(), y, g)
    }
}

impl TrendTable {
    /// Key uniqueness, and no empty cells: a cell exists only for a pair that
    /// was counted at least once.
    pub open spec fn wf(self) -> bool {
        &&& forall|i: int, j: int|
            0 <= i < j < self.cells@.len() ==> !(self.cells@[i].year == self.cells@[j].year
                && self.cells@[i].genre@ == self.cells@[j].genre@)
        &&& forall|i: int| 0 <= i < self.cells@.len() ==> (#[trigger] self.cells@[i]).count >= 1
    }

    /// The table's count for a (year, genre) pair; zero when absent.
    pub open spec fn count_of(self, y: i32, g: Seq<char>) -> int {
        count_in(self.cells@, y, g)
    }
}

proof fn lemma_count_in_absent(cells: Seq<TrendCell>, y: i32, g: Seq<char>)
    requires
        forall|i: int| 0 <= i < cells.len() ==> !(cells[i].year == y && (#[trigger] cells[i]).genre@
            == g),
    ensures
        count_in(cells, y, g) == 0,
    decreases cells.len(),
{
    if cells.len() > 0 {
        assert(forall|i: int|
            0 <= i < cells.len() - 1 ==> cells.drop_last()[i] == #[trigger] cells[i]);
        lemma_count_in_absent(cells.drop_last(), y, g);
        assert(cells.last() == cells[cells.len() - 1]);
    }
}

/// Under key uniqueness, the count of a key is the count of its one cell.
proof fn lemma_count_in_unique(cells: Seq<TrendCell>, k: int, y: i32, g: Seq<char>)
    requires
        0 <= k < cells.len(),
        cells[k].year == y,
        cells[k].genre@ == g,
        forall|i: int, j: int|
            0 <= i < j < cells.len() ==> !(cells[i].year == cells[j].year && cells[i].genre@
                == cells[j].genre@),
    ensures
        count_in(cells, y, g) == cells[k].count,
    decreases cells.len(),
{
    let rest = cells.drop_last();
    assert(forall|i: int| 0 <= i < cells.len() - 1 ==> rest[i] == #[trigger] cells[i]);
    if k == cells.len() - 1 {
        assert forall|i: int|
            0 <= i < rest.len() implies !(rest[i].year == y && (#[trigger] rest[i]).genre@
            == g) by {
            assert(!(cells[i].year == cells[k].year && cells[i].genre@ == cells[k].genre@));
        }
        lemma_count_in_absent(rest, y, g);
        assert(cells.last() == cells[k]);
    } else {
        lemma_count_in_unique(rest, k, y, g);
        assert(cells.last() == cells[cells.len() - 1]);
        assert(!(cells[k].year == cells[cells.len() - 1].year && cells[k].genre@
            == cells[cells.len() - 1].genre@));
    }
}

/// Replacing one cell shifts a key's count by the difference of the cell
/// contributions.
proof fn lemma_count_in_update(cells: Seq<TrendCell>, k: int, c2: TrendCell, y: i32, g: Seq<char>)
    requires
        0 <= k < cells.len(),
    ensures
        count_in(cells.update(k, c2), y, g) == count_in(cells, y, g) - cell_contrib(cells[k], y, g)
            + cell_contrib(c2, y, g),
    decreases cells.len(),
{
    let upd = cells.update(k, c2);
    if k == cells.len() - 1 {
        assert(upd.drop_last() =~= cells.drop_last());
        assert(upd.last() == c2);
        assert(cells.last() == cells[k]);
    } else {
        assert(upd.drop_last() =~= cells.drop_last().update(k, c2));
        assert(upd.last() == cells.last());
        lemma_count_in_update(cells.drop_last(), k, c2, y, g);
        assert(cells.drop_last()[k] == cells[k]);
    }
}

impl TrendTable {
    /// Records one more movie carrying a genre in a year: raises the pair's
    /// cell by one, creating the cell at one when the pair is new. All other
    /// pairs keep their counts.
    pub fn increment(&mut self, year: i32, genre: &String)
        requires
            old(self).wf(),
            old(self).count_of(year, genre@) < usize::MAX,
        ensures
            final(self).wf(),
            final(self).count_of(year, genre@) == old(self).count_of(year, genre@) + 1,
            forall|y: i32, g: Seq<char>|
                !(y == year && g == genre@) ==> #[trigger] final(self).count_of(y, g) == old(
                    self,
                ).count_of(y, g),
    {
        let n = self.cells.len();
        let mut i: usize = 0;
        loop
            invariant
                0 <= i <= n,
                n == self.cells@.len(),
                *self == *old(self),
                forall|j: int|
                    0 <= j < i ==> !(self.cells@[j].year == year && (#[trigger] self.cells@[j]).genre@
                        == genre@),
            ensures
                0 <= i <= n,
                *self == *old(self),
                i < n ==> self.cells@[i as int].year == year && self.cells@[i as int].genre@
                    == genre@,
                forall|j: int|
                    0 <= j < i ==> !(self.cells@[j].year == year && (#[trigger] self.cells@[j]).genre@
                        == genre@),
            decreases n - i,
        {
            if i == n {
                break;
            }
            if self.cells[i].year == year && self.cells[i].genre == *genre {
                break;
            }
            i = i + 1;
        }
        if i < n {
            let c = self.cells[i].count;
            proof {
                lemma_count_in_unique(self.cells@, i as int, year, genre@);
            }
            let cell = TrendCell { year, genre: genre.clone(), count: c + 1 };
            proof {
                lemma_count_in_update(self.cells@, i as int, cell, year, genre@);
            }
            let ghost oldcells = self.cells@;
            self.cells.set(i, cell);
            proof {
                assert forall|y: i32, g: Seq<char>|
                    !(y == year && g == genre@) implies #[trigger] self.count_of(y, g) == old(
                    self,
                ).count_of(y, g) by {
                    lemma_count_in_update(oldcells, i as int, cell, y, g);
                }
            }
        } else {
            let cell = TrendCell { year, genre: genre.clone(), count: 1 };
            proof {
                lemma_count_in_absent(self.cells@, year, genre@);
            }
            let ghost oldcells = self.cells@;
            self.cells.push(cell);
            proof {
                assert(self.cells@.drop_last() =~= oldcells);
                assert(self.cells@.last() == cell);
                assert forall|y: i32, g: Seq<char>|
                    !(y == year && g == genre@) implies #[trigger] self.count_of(y, g) == old(
                    self,
                ).count_of(y, g) by {
                    assert(count_in(self.cells@, y, g) == count_in(oldcells, y, g) + cell_contrib(
                        cell,
                        y,
                        g,
                    ));
                }
            }
        }
    }
}

/// The year a movie's date field parses to, if any.
pub open spec fn movie_year(m: Movie) -> Option<i32> {
    release_year_spec(m.release_date@)
}

/// The genre list a movie's genres field decodes to.
pub open spec fn movie_genres(m: Movie) -> Seq<Seq<char>> {
    genre_names_spec(m.genres@)
}

/// Number of movies whose parsed year is y and whose genre list contains g.
pub open spec fn matching_movies(movies: Seq<Movie>, y: i32, g: Seq<char>) -> int
    decreases movies.len(),
{
    if movies.len() == 0 {
        0
    } else {
        matching_movies(movies.drop_last(), y, g) + if movie_year(movies.last()) == Some(y)
            && movie_genres(movies.last()).contains(g) {
            1int
        } else {
            0int
        }
    }
}

proof fn lemma_matching_movies_bounds(movies: Seq<Movie>, y: i32, g: Seq<char>)
    ensures
        0 <= matching_movies(movies, y, g) <= movies.len(),
    decreases movies.len(),
{
    if movies.len() > 0 {
        lemma_matching_movies_bounds(movies.drop_last(), y, g);
    }
}

/// Builds the trend table from the input records. Movies without a parseable
/// year are dropped; every other movie raises the cell of (year, genre) by
/// one for each distinct genre in its genre list, so a cell counts the movies
/// whose year and genre list match it, and a genre listed twice in one movie
/// counts once.
pub fn compute_genre_popularity(movies: &Vec<Movie>) -> (r: TrendTable)
    ensures
        r.wf(),
        forall|y: i32, g: Seq<char>| #[trigger] r.count_of(y, g) == matching_movies(movies@, y, g),
{
    let mut t = TrendTable { cells: Vec::new() };
    proof {
        assert(movies@.take(0) =~= Seq::<Movie>::empty());
        assert forall|y: i32, g: Seq<char>| #[trigger]
            t.count_of(y, g) == matching_movies(movies@.take(0), y, g) by {
            assert(t.cells@.len() == 0);
        }
    }
    let mut i: usize = 0;
    while i < movies.len()
        invariant
            0 <= i <= movies@.len(),
            t.wf(),
            forall|y: i32, g: Seq<char>| #[trigger]
                t.count_of(y, g) == matching_movies(movies@.take(i as int), y, g),
        decreases movies@.len() - i,
    {
        let ghost pre = movies@.take(i as int);
        proof {
            assert(movies@.len() <= usize::MAX);
        }
        let m = &movies[i];
        let year_opt = parse_release_year(m.release_date.as_str());
        match year_opt {
            Some(year) => {
                let genres = parse_genres(m.genres.as_str());
                assert(genres.deep_view() == movie_genres(movies@[i as int]));
                let ghost dv = genres.deep_view();
                proof {
                    assert(dv.take(0) =~= Seq::<Seq<char>>::empty());
                }
                let mut j: usize = 0;
                while j < genres.len()
                    invariant
                        0 <= j <= genres@.len(),
                        t.wf(),
                        dv == genres.deep_view(),
                        dv.len() == genres@.len(),
                        dv == movie_genres(movies@[i as int]),
                        0 <= i < movies@.len() <= usize::MAX,
                        pre == movies@.take(i as int),
                        movie_year(movies@[i as int]) == Some(year),
                        forall|y: i32, g: Seq<char>| #[trigger]
                            t.count_of(y, g) == matching_movies(pre, y, g) + (if y == year
                                && dv.take(j as int).contains(g) {
                                1int
                            } else {
                                0int
                            }),
                    decreases genres@.len() - j,
                {
                    let g = &genres[j];
                    proof {
                        assert(dv[j as int] == genres@[j as int]@);
                        assert(g@ == dv[j as int]);
                    }
                    // a genre already listed earlier in this movie counts once
                    let mut seen = false;
                    let mut k: usize = 0;
                    while k < j
                        invariant
                            0 <= k <= j <= genres@.len(),
                            dv == genres.deep_view(),
                            dv.len() == genres@.len(),
                            g@ == dv[j as int],
                            0 <= (j as int) < dv.len(),
                            seen <==> exists|x: int| 0 <= x < k && dv[x] == dv[j as int],
                        decreases j - k,
                    {
                        proof {
                            assert(dv[k as int] == genres@[k as int]@);
                        }
                        if genres[k] == *g {
                            seen = true;
                            proof {
                                assert(dv[k as int] == dv[j as int]);
                            }
                        } else {
                            proof {
                                assert(dv[k as int] != dv[j as int]);
                            }
                        }
                        k = k + 1;
                    }
                    proof {
                        assert(forall|x: int|
                            0 <= x < j ==> dv.take(j as int)[x] == #[trigger] dv[x]);
                        if seen {
                            let x = choose|x: int| 0 <= x < j && dv[x] == dv[j as int];
                            assert(dv.take(j as int)[x] == dv[j as int]);
                            assert(dv.take(j as int).contains(dv[j as int]));
                        } else {
                            assert(!dv.take(j as int).contains(dv[j as int])) by {
                                if dv.take(j as int).contains(dv[j as int]) {
                                    let x = choose|x: int|
                                        0 <= x < j && (#[trigger] dv.take(j as int)[x])
                                            == dv[j as int];
                                    assert(dv[x] == dv[j as int]);
                                }
                            }
                        }
                    }
                    if !seen {
                        proof {
                            lemma_matching_movies_bounds(pre, year, g@);
                            assert(t.count_of(year, g@) == matching_movies(pre, year, g@));
                            assert(t.count_of(year, g@) < usize::MAX);
                        }
                        t.increment(year, g);
                    }
                    proof {
                        assert(forall|x: int|
                            0 <= x < j + 1 ==> dv.take(j + 1)[x] == #[trigger] dv[x]);
                        assert(forall|x: int|
                            0 <= x < j ==> dv.take(j as int)[x] == #[trigger] dv[x]);
                        assert forall|y: i32, gg: Seq<char>| #[trigger]
                            t.count_of(y, gg) == matching_movies(pre, y, gg) + (if y == year
                                && dv.take(j + 1).contains(gg) {
                                1int
                            } else {
                                0int
                            }) by {
                            if gg == dv[j as int] {
                                assert(dv.take(j + 1)[j as int] == dv[j as int]);
                                assert(dv.take(j + 1).contains(gg));
                            } else {
                                assert(dv.take(j + 1).contains(gg) <==> dv.take(
                                    j as int,
                                ).contains(gg)) by {
                                    if dv.take(j + 1).contains(gg) {
                                        let x = choose|x: int|
                                            0 <= x < j + 1 && (#[trigger] dv.take(j + 1)[x]) == gg;
                                        assert(dv[x] == gg);
                                        assert(x != j);
                                        assert(dv.take(j as int)[x] == gg);
                                    }
                                    if dv.take(j as int).contains(gg) {
                                        let x = choose|x: int|
                                            0 <= x < j && (#[trigger] dv.take(j as int)[x]) == gg;
                                        assert(dv.take(j + 1)[x] == gg);
                                    }
                                }
                            }
                        }
                    }
                    j = j + 1;
                }
                proof {
                    assert(dv.take(genres@.len() as int) =~= dv);
                    let nxt = movies@.take(i + 1);
                    assert(nxt.drop_last() =~= pre);
                    assert(nxt.last() == movies@[i as int]);
                }
            },
            None => {
                proof {
                    let nxt = movies@.take(i + 1);
                    assert(nxt.drop_last() =~= pre);
                    assert(nxt.last() == movies@[i as int]);
                }
            },
        }
        i = i + 1;
    }
    proof {
        assert(movies@.take(movies@.len() as int) =~= movies@);
    }
    t
}

} // verus!
