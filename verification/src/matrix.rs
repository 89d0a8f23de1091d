//! The visit-count matrix: one counter for every ordered pair of points.
//!
//! The mathematical model of a matrix is a sequence of rows, `Seq<Seq<nat>>`.
//! The spec functions at the top of this module say what each structural
//! operation does to that model; [`VisitMatrix`] is the executable matrix,
//! whose methods are proved against them.

use vstd::prelude::*;

verus! {

/// `m` has `n` rows of `n` entries each.
pub open spec fn is_square(m: Seq<Seq<nat>>, n: nat) -> bool {
    &&& m.len() == n
    &&& forall|i: int| 0 <= i < n ==> (#[trigger] m[i]).len() == n
}

/// No point is connected to itself: every diagonal entry is zero.
pub open spec fn zero_diagonal(m: Seq<Seq<nat>>) -> bool {
    forall|i: int| 0 <= i < m.len() ==> (#[trigger] m[i])[i] == 0
}

/// The `n` by `n` matrix whose entries are all zero.
pub open spec fn zeros(n: nat) -> Seq<Seq<nat>> {
    Seq::new(n, |i: int| Seq::new(n, |j: int| 0nat))
}

/// `m` with one more column and one more row, both zero, at the end.
pub open spec fn grown(m: Seq<Seq<nat>>) -> Seq<Seq<nat>> {
    m.map_values(|row: Seq<nat>| row.push(0nat)).push(Seq::new(m.len() + 1, |j: int| 0nat))
}

/// `m` with row `k` and column `k` deleted; what follows them moves up.
pub open spec fn without(m: Seq<Seq<nat>>, k: int) -> Seq<Seq<nat>> {
    m.remove(k).map_values(|row: Seq<nat>| row.remove(k))
}

/// The index, after point `k` was removed, of the item that had index `i`
/// before (`i` is not `k`): the items after `k` move up by one.
pub open spec fn index_after_removal(k: int, i: int) -> int {
    if i < k {
        i
    } else {
        i - 1
    }
}

/// `m` with one visit added to every off-diagonal entry that `marks` selects.
pub open spec fn bumped(m: Seq<Seq<nat>>, marks: Seq<Seq<bool>>) -> Seq<Seq<nat>> {
    Seq::new(
        m.len(),
        |i: int|
            Seq::new(
                m[i].len(),
                |j: int|
                    if i != j && marks[i][j] {
                        m[i][j] + 1
                    } else {
                        m[i][j]
                    },
            ),
    )
}

/// `marks` has the shape of an `n` by `n` matrix.
pub open spec fn marks_fit(marks: Seq<Seq<bool>>, n: nat) -> bool {
    &&& marks.len() == n
    &&& forall|i: int| 0 <= i < n ==> (#[trigger] marks[i]).len() == n
}

/// Adding the visits that `marks` selects to `m` overflows no counter.
pub open spec fn bump_fits(m: Seq<Seq<nat>>, marks: Seq<Seq<bool>>) -> bool {
    forall|i: int, j: int|
        0 <= i < m.len() && 0 <= j < m.len() && i != j && marks[i][j] ==> #[trigger] m[i][j]
            < usize::MAX
}

/// The counts held by the rows of an executable matrix.
pub open spec fn counts_of(rows: Seq<Vec<usize>>) -> Seq<Seq<nat>> {
    rows.map_values(|row: Vec<usize>| row@.map_values(|c: usize| c as nat))
}

/// The marks held by the rows of an executable table of trial outcomes.
pub open spec fn marks_of(rows: Seq<Vec<bool>>) -> Seq<Seq<bool>> {
    rows.map_values(|row: Vec<bool>| row@)
}

/// Deleting a row and its column from a square matrix with a zero diagonal
/// leaves such a matrix, one smaller.
pub proof fn lemma_without_keeps_shape(m: Seq<Seq<nat>>, k: int)
    requires
        is_square(m, m.len()),
        zero_diagonal(m),
        0 <= k < m.len(),
    ensures
        is_square(without(m, k), (m.len() - 1) as nat),
        zero_diagonal(without(m, k)),
{
    let w = without(m, k);
    assert forall|i: int| 0 <= i < w.len() implies (#[trigger] w[i]).len() == m.len() - 1 && w[i][i]
        == 0 by {
        let src = if i < k { i } else { i + 1 };
        assert(m.remove(k)[i] == m[src]);
        assert(m[src].len() == m.len());
        assert(m[src][src] == 0);
    }
}

/// Deleting row and column `k` changes no other entry: the count of every
/// pair `(p, q)` that avoids `k` is found again, unchanged, at the indices
/// that `p` and `q` have after the removal.
pub proof fn lemma_without_keeps_entries(m: Seq<Seq<nat>>, k: int)
    requires
        is_square(m, m.len()),
        0 <= k < m.len(),
    ensures
        forall|p: int, q: int|
            0 <= p < m.len() && 0 <= q < m.len() && p != k && q != k ==> without(
                m,
                k,
            )[index_after_removal(k, p)][index_after_removal(k, q)] == #[trigger] m[p][q],
{
    let w = without(m, k);
    assert forall|p: int, q: int|
        0 <= p < m.len() && 0 <= q < m.len() && p != k && q != k implies w[index_after_removal(
        k,
        p,
    )][index_after_removal(k, q)] == #[trigger] m[p][q] by {
        let row = index_after_removal(k, p);
        assert(m.remove(k)[row] == m[p]);
        assert(m[p].len() == m.len());
    }
}

/// Growing a matrix and then deleting the row and column that were added
/// gives back the matrix.
pub proof fn lemma_grown_without_last(m: Seq<Seq<nat>>)
    requires
        is_square(m, m.len()),
    ensures
        without(grown(m), m.len() as int) == m,
{
    let n = m.len() as int;
    let w = without(grown(m), n);
    assert(w.len() == n);
    assert forall|i: int| 0 <= i < n implies #[trigger] w[i] == m[i] by {
        assert(grown(m).remove(n)[i] == grown(m)[i]);
        assert(grown(m)[i] == m[i].push(0nat));
        assert(m[i].len() == n);
        assert(m[i].push(0nat).remove(n) =~= m[i]);
    }
    assert(w =~= m);
}

/// Growing a square matrix with a zero diagonal gives such a matrix, one
/// larger, in which every old entry has kept its place and value and every
/// new entry is zero.
pub proof fn lemma_grown_keeps_entries(m: Seq<Seq<nat>>)
    requires
        is_square(m, m.len()),
        zero_diagonal(m),
    ensures
        is_square(grown(m), m.len() + 1),
        zero_diagonal(grown(m)),
        forall|i: int, j: int|
            0 <= i <= m.len() && 0 <= j <= m.len() ==> #[trigger] grown(m)[i][j] == (if i < m.len()
                && j < m.len() {
                m[i][j]
            } else {
                0
            }),
{
    let g = grown(m);
    assert forall|i: int| 0 <= i < g.len() implies (#[trigger] g[i]).len() == m.len() + 1 && g[i][i]
        == 0 by {
        if i < m.len() {
            assert(m[i].len() == m.len());
            assert(m[i][i] == 0);
        }
    }
    assert forall|i: int, j: int| 0 <= i <= m.len() && 0 <= j <= m.len() implies #[trigger] g[i][j]
        == (if i < m.len() && j < m.len() {
        m[i][j]
    } else {
        0
    }) by {
        if i < m.len() {
            assert(m[i].len() == m.len());
        }
    }
}

/// Adding visits keeps the shape of the matrix and its zero diagonal.
pub proof fn lemma_bumped_keeps_shape(m: Seq<Seq<nat>>, marks: Seq<Seq<bool>>)
    requires
        is_square(m, m.len()),
        zero_diagonal(m),
    ensures
        is_square(bumped(m, marks), m.len()),
        zero_diagonal(bumped(m, marks)),
{
    let b = bumped(m, marks);
    assert forall|i: int| 0 <= i < b.len() implies (#[trigger] b[i]).len() == m.len() && b[i][i]
        == 0 by {
        assert(m[i].len() == m.len());
        assert(m[i][i] == 0);
    }
}

/// `after` is `before` with one added wherever `marks` is set, but at position `own`.
spec fn row_bumped(before: Seq<usize>, after: Seq<usize>, marks: Seq<bool>, own: int) -> bool {
    &&& after.len() == before.len()
    &&& forall|c: int|
        0 <= c < before.len() ==> #[trigger] after[c] == (if c != own && marks[c] {
            before[c] + 1
        } else {
            before[c] as int
        })
}

/// Adds the marked visits to one row of the matrix.
fn bump_row(row: &mut Vec<usize>, marks: &Vec<bool>, own: usize)
    requires
        marks@.len() == old(row)@.len(),
        forall|c: int|
            0 <= c < old(row)@.len() && c != own && marks@[c] ==> #[trigger] old(row)@[c]
                < usize::MAX,
    ensures
        row_bumped(old(row)@, final(row)@, marks@, own as int),
{
    let n = row.len();
    for j in 0..n
        invariant
            row@.len() == n,
            marks@.len() == n,
            old(row)@.len() == n,
            forall|c: int|
                0 <= c < n && c != own && marks@[c] ==> #[trigger] old(row)@[c] < usize::MAX,
            forall|c: int|
                0 <= c < j ==> #[trigger] row@[c] == (if c != own && marks@[c] {
                    old(row)@[c] + 1
                } else {
                    old(row)@[c] as int
                }),
            forall|c: int| j <= c < n ==> #[trigger] row@[c] == old(row)@[c],
    {
        if j != own && marks[j] {
            row[j] += 1;
        }
    }
}

/// A square matrix of visit counts with a zero diagonal.
#[derive(Debug)]
pub struct VisitMatrix {
    rows: Vec<Vec<usize>>,
}

impl View for VisitMatrix {
    type V = Seq<Seq<nat>>;

    closed spec fn view(&self) -> Seq<Seq<nat>> {
        counts_of(self.rows@)
    }
}

impl Clone for VisitMatrix {
    fn clone(&self) -> (copy: VisitMatrix)
        ensures
            copy@ == self@,
    {
        let copy = VisitMatrix { rows: self.rows.clone() };
        proof {
            assert forall|r: int| 0 <= r < self@.len() implies #[trigger] copy@[r] == self@[r] by {
                assert(cloned::<Vec<usize>>(self.rows@[r], copy.rows@[r]));
                assert(copy.rows@[r]@ =~= self.rows@[r]@);
                assert(copy@[r] =~= self@[r]);
            }
            assert(copy@ =~= self@);
        }
        copy
    }
}

impl VisitMatrix {
    /// The invariant of every matrix this module hands out.
    pub open spec fn wf(&self) -> bool {
        &&& is_square(self@, self@.len())
        &&& zero_diagonal(self@)
    }

    /// The matrix of a graph without points.
    pub fn new() -> (m: VisitMatrix)
        ensures
            m.wf(),
            m@ == zeros(0),
    {
        let m = VisitMatrix { rows: Vec::new() };
        assert(m@ =~= zeros(0));
        m
    }

    /// The number of rows, which is the number of columns.
    pub fn dim(&self) -> (n: usize)
        ensures
            n == self@.len(),
    {
        self.rows.len()
    }

    /// The visit count of the connection from point `i` to point `j`.
    pub fn get(&self, i: usize, j: usize) -> (count: usize)
        requires
            self.wf(),
            i < self@.len(),
            j < self@.len(),
        ensures
            count == self@[i as int][j as int],
    {
        assert(self@[i as int].len() == self@.len());
        self.rows[i][j]
    }

    /// The rows of the matrix, for a reader that walks all of it.
    pub fn rows(&self) -> (rows: &Vec<Vec<usize>>)
        ensures
            counts_of(rows@) == self@,
    {
        &self.rows
    }

    /// Appends a zero column and a zero row; every old entry keeps its place and value.
    pub fn grow(&mut self)
        requires
            old(self).wf(),
        ensures
            final(self).wf(),
            final(self)@ == grown(old(self)@),
    {
        let n = self.rows.len();
        let ghost rows0 = self.rows@;
        for i in 0..n
            invariant
                rows0 == old(self).rows@,
                self.rows@.len() == n,
                forall|r: int| 0 <= r < i ==> (#[trigger] self.rows@[r])@ == rows0[r]@.push(0usize),
                forall|r: int| i <= r < n ==> (#[trigger] self.rows@[r]) == rows0[r],
        {
            self.rows[i].push(0);
        }
        let mut row: Vec<usize> = vec![0; n];
        row.push(0);
        self.rows.push(row);
        proof {
            let after = self@;
            let goal = grown(old(self)@);
            assert(after.len() == goal.len());
            assert forall|r: int| 0 <= r < after.len() implies #[trigger] after[r] == goal[r] by {
                if r < n {
                    assert(self.rows@[r]@ == rows0[r]@.push(0usize));
                    assert(after[r] =~= goal[r]);
                } else {
                    assert(after[r] =~= goal[r]);
                }
            }
            assert(after =~= goal);
        }
    }

    /// Deletes row `k` and column `k`; every other entry keeps its value, and
    /// the rows and columns after `k` move up by one.
    pub fn remove(&mut self, k: usize)
        requires
            old(self).wf(),
            k < old(self)@.len(),
        ensures
            final(self).wf(),
            final(self)@ == without(old(self)@, k as int),
    {
        let ghost rows0 = self.rows@;
        proof {
            assert forall|r: int| 0 <= r < rows0.len() implies (#[trigger] rows0[r])@.len()
                == rows0.len() by {
                assert(old(self)@[r].len() == rows0.len());
            }
        }
        self.rows.remove(k);
        let n = self.rows.len();
        let ghost rows1 = self.rows@;
        for i in 0..n
            invariant
                rows1 == rows0.remove(k as int),
                k <= n,
                rows0.len() == n + 1,
                self.rows@.len() == n,
                forall|r: int| 0 <= r < rows0.len() ==> (#[trigger] rows0[r])@.len() == n + 1,
                forall|r: int|
                    0 <= r < i ==> (#[trigger] self.rows@[r])@ == rows1[r]@.remove(k as int),
                forall|r: int| i <= r < n ==> (#[trigger] self.rows@[r]) == rows1[r],
        {
            assert(rows1[i as int] == rows0[if i < k { i as int } else { i + 1 }]);
            self.rows[i].remove(k);
        }
        proof {
            let before = old(self)@;
            let after = self@;
            let goal = without(before, k as int);
            assert(after.len() == goal.len());
            assert forall|r: int| 0 <= r < after.len() implies #[trigger] after[r] == goal[r] by {
                assert(self.rows@[r]@ == rows1[r]@.remove(k as int));
                assert(after[r] =~= goal[r]);
            }
            assert(after =~= goal);
            lemma_without_keeps_shape(before, k as int);
        }
    }

    /// Sets every entry to zero.
    pub fn clear(&mut self)
        requires
            old(self).wf(),
        ensures
            final(self).wf(),
            final(self)@ == zeros(old(self)@.len()),
    {
        let n = self.rows.len();
        proof {
            assert forall|r: int| 0 <= r < n implies (#[trigger] self.rows@[r])@.len() == n by {
                assert(self@[r].len() == n);
            }
        }
        for i in 0..n
            invariant
                self.rows@.len() == n,
                forall|r: int| 0 <= r < n ==> (#[trigger] self.rows@[r])@.len() == n,
                forall|r: int, c: int|
                    0 <= r < i && 0 <= c < n ==> #[trigger] self.rows@[r]@[c] == 0,
        {
            for j in 0..n
                invariant
                    i < n,
                    self.rows@.len() == n,
                    forall|r: int| 0 <= r < n ==> (#[trigger] self.rows@[r])@.len() == n,
                    forall|r: int, c: int|
                        0 <= r < i && 0 <= c < n ==> #[trigger] self.rows@[r]@[c] == 0,
                    forall|c: int| 0 <= c < j ==> self.rows@[i as int]@[c] == 0,
            {
                self.rows[i][j] = 0;
            }
        }
        proof {
            let after = self@;
            let goal = zeros(old(self)@.len());
            assert forall|r: int| 0 <= r < after.len() implies #[trigger] after[r] == goal[r] by {
                assert(self.rows@[r]@.len() == n);
                assert(after[r] =~= goal[r]);
            }
            assert(after =~= goal);
        }
    }

    /// Adds one visit to every off-diagonal entry whose mark is set, all at
    /// once: no entry is read after another was changed.
    pub fn bump(&mut self, marks: &Vec<Vec<bool>>)
        requires
            old(self).wf(),
            marks_fit(marks_of(marks@), old(self)@.len()),
            bump_fits(old(self)@, marks_of(marks@)),
        ensures
            final(self).wf(),
            final(self)@ == bumped(old(self)@, marks_of(marks@)),
    {
        let n = self.rows.len();
        let ghost rows0 = self.rows@;
        let ghost m0 = self@;
        let ghost mk = marks_of(marks@);
        proof {
            assert forall|r: int| 0 <= r < n implies (#[trigger] rows0[r])@.len() == n by {
                assert(m0[r].len() == n);
            }
            assert forall|r: int| 0 <= r < n implies (#[trigger] marks@[r])@.len() == n by {
                assert(mk[r].len() == n);
            }
        }
        for i in 0..n
            invariant
                rows0 == old(self).rows@,
                m0 == counts_of(rows0),
                mk == marks_of(marks@),
                bump_fits(m0, mk),
                marks@.len() == n,
                self.rows@.len() == n,
                rows0.len() == n,
                forall|r: int| 0 <= r < n ==> (#[trigger] rows0[r])@.len() == n,
                forall|r: int| 0 <= r < n ==> (#[trigger] marks@[r])@.len() == n,
                forall|r: int|
                    0 <= r < i ==> row_bumped(
                        rows0[r]@,
                        (#[trigger] self.rows@[r])@,
                        marks@[r]@,
                        r,
                    ),
                forall|r: int| i <= r < n ==> (#[trigger] self.rows@[r]) == rows0[r],
        {
            let ghost row0 = self.rows@[i as int]@;
            proof {
                assert forall|c: int| 0 <= c < n && c != i && marks@[i as int]@[c] implies row0[c]
                    < usize::MAX by {
                    assert(mk[i as int][c]);
                    assert(m0[i as int][c] == row0[c]);
                }
            }
            bump_row(&mut self.rows[i], &marks[i], i);
        }
        proof {
            let after = self@;
            let goal = bumped(m0, mk);
            assert forall|r: int| 0 <= r < after.len() implies #[trigger] after[r] == goal[r] by {
                assert(row_bumped(rows0[r]@, self.rows@[r]@, marks@[r]@, r));
                assert(m0[r].len() == n);
                assert forall|c: int| 0 <= c < n implies after[r][c] == goal[r][c] by {
                    assert(mk[r][c] == marks@[r]@[c]);
                    assert(m0[r][c] == rows0[r]@[c]);
                }
                assert(after[r] =~= goal[r]);
            }
            assert(after =~= goal);
            lemma_bumped_keeps_shape(m0, mk);
        }
    }
}

} // verus!
