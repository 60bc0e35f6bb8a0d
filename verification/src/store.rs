//! In-memory model of the relational store: the experience rows keyed by
//! their id (exactly one row per id, replace on conflict) and the single-row
//! progress cursor.

use vstd::prelude::*;
use crate::record::{same_row, Experience};

verus! {

/// Failure of a store read.
#[derive(Debug, Clone, Copy, PartialEq, Eq, Structural)]
pub enum StoreError {
    Empty,
}

/// Index of the first row carrying `id`, or `-1` if there is none.
pub open spec fn find_row(rows: Seq<Experience>, id: int) -> int
    decreases rows.len(),
{
    if rows.len() == 0 {
        -1
    } else if rows[0].experience_id == id {
        0
    } else {
        let r = find_row(rows.drop_first(), id);
        if r < 0 {
            -1
        } else {
            r + 1
        }
    }
}

/// Replace-on-conflict: the row with the record's id is replaced, or the
/// record is appended when its id is new.
pub open spec fn upsert_rows(rows: Seq<Experience>, e: Experience) -> Seq<Experience> {
    let f = find_row(rows, e.experience_id as int);
    if f < 0 {
        rows.push(e)
    } else {
        rows.update(f, e)
    }
}

/// No two rows share an id.
pub open spec fn unique_ids(rows: Seq<Experience>) -> bool {
    forall|i: int, j: int|
        0 <= i < j < rows.len() ==> rows[i].experience_id != rows[j].experience_id
}

/// How many rows carry `id`.
pub open spec fn count_id(rows: Seq<Experience>, id: int) -> int
    decreases rows.len(),
{
    if rows.len() == 0 {
        0
    } else {
        (if rows[0].experience_id == id {
            1int
        } else {
            0int
        }) + count_id(rows.drop_first(), id)
    }
}

/// The experience table and the progress-cursor row of the relational store.
pub struct ExperienceStore {
    pub rows: Vec<Experience>,
    pub cursor: Option<i32>,
}

impl ExperienceStore {
    /// An empty store: no rows, no cursor row yet.
    pub fn new() -> (s: ExperienceStore)
        ensures
            s.rows@.len() == 0,
            s.cursor is None,
    {
        ExperienceStore { rows: Vec::new(), cursor: None }
    }

    /// Reads the cursor; where no cursor row exists yet it is initialized to
    /// the documented default of 1 and persisted.
    pub fn current_experience(&mut self) -> (c: i32)
        ensures
            final(self).rows@ == old(self).rows@,
            match old(self).cursor {
                Some(v) => c == v && final(self).cursor == old(self).cursor,
                None => c == 1 && final(self).cursor == Some(1i32),
            },
    {
        match self.cursor {
            Some(v) => v,
            None => {
                self.cursor = Some(1);
                1
            },
        }
    }

    /// Replaces the cursor row with the given value.
    pub fn set_current_experience(&mut self, current_id: i32)
        ensures
            final(self).rows@ == old(self).rows@,
            final(self).cursor == Some(current_id),
    {
        self.cursor = Some(current_id);
    }

    /// Whether some row carries the given share code.
    pub fn has_experience(&mut self, share_code: String) -> (b: bool)
        ensures
            *final(self) == *old(self),
            b == exists|i: int|
                0 <= i < old(self).rows@.len() && old(self).rows@[i].share_code@ == share_code@,
    {
        let mut i: usize = 0;
        while i < self.rows.len()
            invariant
                *self == *old(self),
                i <= self.rows@.len(),
                forall|j: int| 0 <= j < i ==> self.rows@[j].share_code@ != share_code@,
            decreases self.rows@.len() - i,
        {
            if self.rows[i].share_code == share_code {
                return true;
            }
            i += 1;
        }
        false
    }

    /// Inserts the record, replacing any row that already carries its id.
    pub fn add_or_update_experience(&mut self, experience: Experience)
        ensures
            final(self).rows@ == upsert_rows(old(self).rows@, experience),
            final(self).cursor == old(self).cursor,
            unique_ids(old(self).rows@) ==> unique_ids(final(self).rows@),
    {
        let ghost orig: Seq<Experience> = self.rows@;
        let mut i: usize = 0;
        while i < self.rows.len()
            invariant
                orig == old(self).rows@,
                self.rows@ == orig,
                self.cursor == old(self).cursor,
                i <= orig.len(),
                forall|j: int| 0 <= j < i ==> orig[j].experience_id != experience.experience_id,
            decreases orig.len() - i,
        {
            if self.rows[i].experience_id == experience.experience_id {
                proof {
                    lemma_find_row_at(orig, experience.experience_id as int, i as int);
                }
                self.rows.remove(i);
                self.rows.insert(i, experience);
                proof {
                    assert(self.rows@ =~= orig.update(i as int, experience));
                    assert(self.rows@ =~= upsert_rows(orig, experience));
                    if unique_ids(orig) {
                        assert forall|p: int, q: int|
                            0 <= p < q < self.rows@.len() implies self.rows@[p].experience_id
                            != self.rows@[q].experience_id by {
                            assert(self.rows@[p].experience_id == orig[p].experience_id);
                            assert(self.rows@[q].experience_id == orig[q].experience_id);
                        }
                    }
                }
                return ;
            }
            i += 1;
        }
        proof {
            lemma_find_row_bounds(orig, experience.experience_id as int);
        }
        self.rows.push(experience);
        proof {
            assert(self.rows@ =~= upsert_rows(orig, experience));
            if unique_ids(orig) {
                assert forall|p: int, q: int|
                    0 <= p < q < self.rows@.len() implies self.rows@[p].experience_id
                    != self.rows@[q].experience_id by {
                    if q < orig.len() {
                        assert(self.rows@[p].experience_id == orig[p].experience_id);
                        assert(self.rows@[q].experience_id == orig[q].experience_id);
                    } else {
                        assert(self.rows@[p].experience_id == orig[p].experience_id);
                        assert(orig[p].experience_id != experience.experience_id);
                    }
                }
            }
        }
    }

    /// Overwrites every row's non-key columns with the record's values; each
    /// row keeps its own id.
    pub fn update_experience(&mut self, experience: Experience)
        ensures
            final(self).cursor == old(self).cursor,
            final(self).rows@.len() == old(self).rows@.len(),
            forall|i: int|
                0 <= i < old(self).rows@.len() ==> #[trigger] same_row(
                    final(self).rows@[i],
                    overwrite_columns(old(self).rows@[i], experience),
                ),
    {
        let ghost orig: Seq<Experience> = self.rows@;
        let mut i: usize = 0;
        while i < self.rows.len()
            invariant
                orig == old(self).rows@,
                self.cursor == old(self).cursor,
                self.rows@.len() == orig.len(),
                i <= orig.len(),
                forall|j: int| i <= j < orig.len() ==> self.rows@[j] == orig[j],
                forall|j: int|
                    0 <= j < i ==> #[trigger] same_row(
                        self.rows@[j],
                        overwrite_columns(orig[j], experience),
                    ),
            decreases orig.len() - i,
        {
            let id: i32 = self.rows[i].experience_id;
            let mut replacement: Experience = experience.duplicate();
            replacement.experience_id = id;
            self.rows.remove(i);
            self.rows.insert(i, replacement);
            i += 1;
        }
    }

    /// The largest stored id, or `Empty` where no row exists.
    pub fn get_last_experience(&mut self) -> (r: Result<i32, StoreError>)
        ensures
            *final(self) == *old(self),
            old(self).rows@.len() == 0 ==> r == Err::<i32, StoreError>(StoreError::Empty),
            old(self).rows@.len() > 0 ==> (r matches Ok(m) && (exists|i: int|
                0 <= i < old(self).rows@.len() && old(self).rows@[i].experience_id == m) && (forall|
                i: int,
            |
                0 <= i < old(self).rows@.len() ==> old(self).rows@[i].experience_id <= m)),
    {
        if self.rows.len() == 0 {
            return Err(StoreError::Empty);
        }
        let mut best: i32 = self.rows[0].experience_id;
        let mut i: usize = 1;
        while i < self.rows.len()
            invariant
                *self == *old(self),
                1 <= i <= self.rows@.len(),
                exists|j: int| 0 <= j < i && self.rows@[j].experience_id == best,
                forall|j: int| 0 <= j < i ==> self.rows@[j].experience_id <= best,
            decreases self.rows@.len() - i,
        {
            let candidate: i32 = self.rows[i].experience_id;
            if candidate > best {
                best = candidate;
            }
            i += 1;
        }
        Ok(best)
    }
}

/// The record's values on every non-key column, over a row's own id.
pub open spec fn overwrite_columns(row: Experience, e: Experience) -> Experience {
    Experience { experience_id: row.experience_id, ..e }
}

/// `find_row` is in bounds; a negative answer means the id is absent, a
/// non-negative one points at the first row carrying it.
pub proof fn lemma_find_row_bounds(rows: Seq<Experience>, id: int)
    ensures
        -1 <= find_row(rows, id) < rows.len(),
        find_row(rows, id) == -1 ==> forall|i: int|
            0 <= i < rows.len() ==> rows[i].experience_id != id,
        find_row(rows, id) >= 0 ==> rows[find_row(rows, id)].experience_id == id && forall|i: int|
            0 <= i < find_row(rows, id) ==> rows[i].experience_id != id,
    decreases rows.len(),
{
    if rows.len() > 0 && rows[0].experience_id != id {
        let rest = rows.drop_first();
        lemma_find_row_bounds(rest, id);
        assert(forall|i: int| 0 <= i < rest.len() ==> rest[i] == rows[i + 1]);
        if find_row(rows, id) == -1 {
            assert forall|i: int| 0 <= i < rows.len() implies rows[i].experience_id != id by {
                if i >= 1 {
                    assert(rows[i] == rest[i - 1]);
                }
            }
        } else {
            let f = find_row(rows, id);
            assert(rows[f] == rest[f - 1]);
            assert forall|i: int| 0 <= i < f implies rows[i].experience_id != id by {
                if i >= 1 {
                    assert(rows[i] == rest[i - 1]);
                }
            }
        }
    }
}

/// Pinpoints `find_row` at `i` when all earlier rows carry other ids and row
/// `i` carries `id`.
pub proof fn lemma_find_row_at(rows: Seq<Experience>, id: int, i: int)
    requires
        0 <= i < rows.len(),
        forall|j: int| 0 <= j < i ==> rows[j].experience_id != id,
        rows[i].experience_id == id,
    ensures
        find_row(rows, id) == i,
    decreases i,
{
    if i == 0 {
    } else {
        let rest = rows.drop_first();
        assert(forall|j: int| 0 <= j < rest.len() ==> rest[j] == rows[j + 1]);
        lemma_find_row_at(rest, id, i - 1);
    }
}

/// A store without the id counts zero rows for it.
proof fn lemma_count_id_zero(rows: Seq<Experience>, id: int)
    requires
        forall|i: int| 0 <= i < rows.len() ==> rows[i].experience_id != id,
    ensures
        count_id(rows, id) == 0,
    decreases rows.len(),
{
    if rows.len() > 0 {
        let rest = rows.drop_first();
        assert(forall|i: int| 0 <= i < rest.len() ==> rest[i] == rows[i + 1]);
        lemma_count_id_zero(rest, id);
    }
}

/// A store whose only row with the id sits at `f` counts exactly one.
proof fn lemma_count_id_single(rows: Seq<Experience>, id: int, f: int)
    requires
        0 <= f < rows.len(),
        rows[f].experience_id == id,
        forall|i: int| 0 <= i < rows.len() && i != f ==> rows[i].experience_id != id,
    ensures
        count_id(rows, id) == 1,
    decreases rows.len(),
{
    let rest = rows.drop_first();
    assert(forall|i: int| 0 <= i < rest.len() ==> rest[i] == rows[i + 1]);
    if f == 0 {
        lemma_count_id_zero(rest, id);
    } else {
        lemma_count_id_single(rest, id, f - 1);
    }
}

/// Law: the upsert is idempotent — applying the same record twice leaves the
/// very rows of applying it once, and a store with unique ids then holds
/// exactly one row for the record's id, carrying the record itself.
pub proof fn lemma_upsert_idempotent(rows: Seq<Experience>, e: Experience)
    requires
        unique_ids(rows),
    ensures
        upsert_rows(upsert_rows(rows, e), e) == upsert_rows(rows, e),
        count_id(upsert_rows(rows, e), e.experience_id as int) == 1,
        ({
            let up = upsert_rows(rows, e);
            let f = find_row(up, e.experience_id as int);
            0 <= f < up.len() && up[f] == e
        }),
{
    let id = e.experience_id as int;
    lemma_find_row_bounds(rows, id);
    let f = find_row(rows, id);
    if f == -1 {
        let up = rows.push(e);
        lemma_find_row_at(up, id, rows.len() as int);
        assert(upsert_rows(rows, e) == up);
        assert(up.update(rows.len() as int, e) =~= up);
        assert(forall|i: int| 0 <= i < up.len() && i != rows.len() ==> up[i] == rows[i]);
        lemma_count_id_single(up, id, rows.len() as int);
    } else {
        let up = rows.update(f, e);
        assert(forall|i: int| 0 <= i < up.len() && i != f ==> up[i] == rows[i]);
        lemma_find_row_at(up, id, f);
        assert(upsert_rows(rows, e) == up);
        assert(up.update(f, e) =~= up);
        assert(forall|i: int| 0 <= i < rows.len() && i != f ==> rows[i].experience_id != id);
        lemma_count_id_single(up, id, f);
    }
}

} // verus!
