//! The kid/settings repository and the period-scoped aggregation.
//!
//! The store is the relational model the operations are verified against:
//! a kids table, an append-only ledger of +1/-1 notes, and a singleton
//! granularity setting.  Counts are never stored; every read derives them
//! from the ledger and the current period window, so they reset conceptually
//! at each period boundary without any reset action.

use vstd::prelude::*;
use vstd::string::StrSliceExecFns;
use vstd::string::StringExecFns;
use crate::calendar::Instant;
use crate::calendar::SECONDS_PER_DAY;
use crate::models::CountAggregation;
use crate::models::CountMetadata;
use crate::models::GetKidsResponse;
use crate::models::Kid;
use crate::models::KidSummary;
use crate::period::compute_current_period;
use crate::period::current_aggregation;
use crate::period::current_window_start;
use crate::period::is_allowed_granularity;
use crate::period::granularity_allowed;
use crate::period::period_input_ok;
use crate::text::lemma_trim_idempotent;
use crate::text::lex_le;
use crate::text::lemma_lex_le_total;
use crate::text::lemma_lex_le_trans;
use crate::text::str_le;
use crate::text::trim;
use crate::text::trim_spec;

verus! {

/// Most kids that may exist concurrently.
pub const MAX_KIDS: usize = 10;

/// Most notes the ledger can hold (so that any window sum fits an `i64`).
pub const MAX_NOTES: u64 = 0x7fff_ffff_ffff_ffff;

/// The failure taxonomy of the repository.
#[derive(Clone, Copy, PartialEq, Eq, Structural, Hash, Debug)]
pub enum RepoError {
    /// Bad input shape: empty or overlong name, unknown granularity value.
    Validation,
    /// The 10-kid limit is reached.
    Capacity,
    /// The expected singleton settings row is missing.
    NotFound,
    /// The storage layer refused the operation: a note for a kid id that
    /// does not exist, or exhausted id or ledger space.
    Storage,
}

impl RepoError {
    /// The rendering produced by `message`.
    pub open spec fn spec_message(self) -> Seq<char> {
        match self {
            RepoError::Validation => "Invalid input"@,
            RepoError::Capacity => "Maximum of 10 kids allowed"@,
            RepoError::NotFound => "No settings found"@,
            RepoError::Storage => "Storage error"@,
        }
    }

    /// A human-readable description of the failure.
    pub fn message(&self) -> (r: &'static str)
        ensures
            r@ == self.spec_message(),
    {
        match self {
            RepoError::Validation => "Invalid input",
            RepoError::Capacity => "Maximum of 10 kids allowed",
            RepoError::NotFound => "No settings found",
            RepoError::Storage => "Storage error",
        }
    }
}

/// A row of the kids table.
#[derive(Debug)]
pub struct KidRecord {
    pub id: u32,
    pub name: String,
    pub created_at: Instant,
}

/// A row of the append-only notes ledger; the quantity is +1 or -1.
#[derive(Clone, Copy, PartialEq, Eq, Structural, Debug)]
pub struct NoteRecord {
    pub kid_id: u32,
    pub quantity: i8,
    pub created_at: Instant,
}

/// A name the kids table may hold: already trimmed, 1 to 50 characters.
pub open spec fn valid_stored_name(s: Seq<char>) -> bool {
    &&& trim_spec(s) == s
    &&& 1 <= s.len() <= 50
}

/// The note counts for kid `id` in the window starting at `ws`.
pub open spec fn note_in_window(n: NoteRecord, id: u32, ws: Instant) -> bool {
    n.kid_id == id && ws.timestamp() <= n.created_at.timestamp()
}

/// Sum of the quantities of the notes for kid `id` inside the window.
pub open spec fn window_sum(notes: Seq<NoteRecord>, id: u32, ws: Instant) -> int
    decreases notes.len(),
{
    if notes.len() == 0 {
        0
    } else {
        window_sum(notes.drop_last(), id, ws) + if note_in_window(notes.last(), id, ws) {
            notes.last().quantity as int
        } else {
            0
        }
    }
}

/// Timestamp of the most recent note for kid `id` inside the window, when
/// one exists.
pub open spec fn window_latest(notes: Seq<NoteRecord>, id: u32, ws: Instant) -> Option<Instant>
    decreases notes.len(),
{
    if notes.len() == 0 {
        None
    } else {
        let rest = window_latest(notes.drop_last(), id, ws);
        if note_in_window(notes.last(), id, ws) {
            match rest {
                None => Some(notes.last().created_at),
                Some(t) => if t.timestamp() >= notes.last().created_at.timestamp() {
                    Some(t)
                } else {
                    Some(notes.last().created_at)
                },
            }
        } else {
            rest
        }
    }
}

/// The repository: kids, the note ledger, and the singleton settings row
/// (`None` until provisioned).
pub struct Store {
    pub kids: Vec<KidRecord>,
    pub notes: Vec<NoteRecord>,
    pub settings: Option<String>,
    pub next_id: u32,
}

/// Some row of `kids` carries id `id`.
pub open spec fn has_kid_in(kids: Seq<KidRecord>, id: u32) -> bool {
    exists|i: int| 0 <= i < kids.len() && (#[trigger] kids[i]).id == id
}

/// The kids-table invariants: at most 10 rows, unique ids all below the id
/// counter, validated names, well-formed timestamps.
pub open spec fn kids_wf(kids: Seq<KidRecord>, next_id: u32) -> bool {
    &&& kids.len() <= MAX_KIDS
    &&& forall|i: int, j: int|
        0 <= i < j < kids.len() ==> (#[trigger] kids[i]).id != (#[trigger] kids[j]).id
    &&& forall|i: int| 0 <= i < kids.len() ==> (#[trigger] kids[i]).id < next_id
    &&& forall|i: int| 0 <= i < kids.len() ==> valid_stored_name((#[trigger] kids[i]).name@)
    &&& forall|i: int| 0 <= i < kids.len() ==> (#[trigger] kids[i]).created_at.wf()
}

/// The ledger invariants: quantities exactly +1 or -1, well-formed
/// timestamps, referential integrity against the kids table, and a length
/// that keeps every window sum inside `i64`.
pub open spec fn notes_wf(kids: Seq<KidRecord>, notes: Seq<NoteRecord>) -> bool {
    &&& forall|i: int|
        0 <= i < notes.len() ==> ((#[trigger] notes[i]).quantity == 1 || notes[i].quantity == -1)
    &&& forall|i: int| 0 <= i < notes.len() ==> (#[trigger] notes[i]).created_at.wf()
    &&& forall|i: int| 0 <= i < notes.len() ==> has_kid_in(kids, (#[trigger] notes[i]).kid_id)
    &&& notes.len() <= MAX_NOTES
}

impl Store {
    /// Some kid row carries id `id`.
    pub open spec fn spec_has_kid(self, id: u32) -> bool {
        has_kid_in(self.kids@, id)
    }

    /// The relational invariants of the store.
    pub open spec fn wf(self) -> bool {
        &&& kids_wf(self.kids@, self.next_id)
        &&& notes_wf(self.kids@, self.notes@)
    }

    /// An empty repository: no kids, no notes, no settings row.
    pub fn new() -> (s: Store)
        ensures
            s.wf(),
            s.kids@.len() == 0,
            s.notes@.len() == 0,
            s.settings is None,
            s.next_id == 1,
    {
        Store { kids: Vec::new(), notes: Vec::new(), settings: None, next_id: 1 }
    }

    /// Creates or replaces the singleton settings row.  Provisioning is an
    /// external concern and accepts any text; period computations treat an
    /// unrecognized stored value as monthly.
    pub fn provision_settings(&mut self, granularity: String)
        requires
            old(self).wf(),
        ensures
            final(self).wf(),
            final(self).settings is Some,
            final(self).settings.unwrap()@ == granularity@,
            final(self).kids == old(self).kids,
            final(self).notes == old(self).notes,
            final(self).next_id == old(self).next_id,
    {
        self.settings = Some(granularity);
    }

    /// Reads the granularity value of the singleton settings row; fails
    /// with `NotFound` when no settings row exists.
    pub fn get_granularity(&self) -> (r: Result<String, RepoError>)
        ensures
            match r {
                Ok(g) => self.settings is Some && g@ == self.settings.unwrap()@,
                Err(e) => e == RepoError::NotFound && self.settings is None,
            },
    {
        match &self.settings {
            Some(g) => Ok(g.clone()),
            None => Err(RepoError::NotFound),
        }
    }

    /// Replaces the granularity when `value` is one of "DAILY", "WEEKLY",
    /// "MONTHLY", "YEARLY"; otherwise fails with `Validation` and leaves
    /// the settings unchanged.
    pub fn update_granularity(&mut self, value: String) -> (r: Result<(), RepoError>)
        requires
            old(self).wf(),
        ensures
            final(self).wf(),
            final(self).kids == old(self).kids,
            final(self).notes == old(self).notes,
            final(self).next_id == old(self).next_id,
            match r {
                Ok(()) => is_allowed_granularity(value@) && final(self).settings is Some
                    && final(self).settings.unwrap()@ == value@,
                Err(e) => e == RepoError::Validation && !is_allowed_granularity(value@)
                    && final(self).settings == old(self).settings,
            },
    {
        if granularity_allowed(value.as_str()) {
            self.settings = Some(value);
            Ok(())
        } else {
            Err(RepoError::Validation)
        }
    }

    /// Linear scan for a kid id.
    fn find_kid(&self, id: u32) -> (found: bool)
        ensures
            found == self.spec_has_kid(id),
    {
        let mut i: usize = 0;
        while i < self.kids.len()
            invariant
                i <= self.kids@.len(),
                forall|k: int| 0 <= k < i ==> (#[trigger] self.kids@[k]).id != id,
            decreases self.kids@.len() - i,
        {
            if self.kids[i].id == id {
                return true;
            }
            i = i + 1;
        }
        false
    }

    /// Appends a +1 (when `add`) or -1 note for `kid_id` at time `now`.
    /// Fails with `Storage` when `kid_id` does not exist (the referential
    /// constraint of the store) or when the ledger is full.
    pub fn log_note(&mut self, kid_id: u32, add: bool, now: Instant) -> (r: Result<(), RepoError>)
        requires
            old(self).wf(),
            now.wf(),
        ensures
            final(self).wf(),
            final(self).kids == old(self).kids,
            final(self).settings == old(self).settings,
            final(self).next_id == old(self).next_id,
            match r {
                Ok(()) => old(self).spec_has_kid(kid_id) && old(self).notes@.len() < MAX_NOTES
                    && final(self).notes@ == old(self).notes@.push(
                    (NoteRecord {
                        kid_id,
                        quantity: if add {
                            1i8
                        } else {
                            -1i8
                        },
                        created_at: now,
                    }),
                ),
                Err(e) => e == RepoError::Storage && !(old(self).spec_has_kid(kid_id)
                    && old(self).notes@.len() < MAX_NOTES) && final(self).notes == old(self).notes,
            },
    {
        if !self.find_kid(kid_id) {
            return Err(RepoError::Storage);
        }
        if self.notes.len() as u64 >= MAX_NOTES {
            return Err(RepoError::Storage);
        }
        let q: i8 = if add {
            1
        } else {
            -1
        };
        self.notes.push(NoteRecord { kid_id, quantity: q, created_at: now });
        Ok(())
    }

    /// Records a +1 note for the kid; fails with `Storage` as `log_note`.
    pub fn increment_kid_count(&mut self, kid_id: u32, now: Instant) -> (r: Result<
        (),
        RepoError,
    >)
        requires
            old(self).wf(),
            now.wf(),
        ensures
            final(self).wf(),
            final(self).kids == old(self).kids,
            final(self).settings == old(self).settings,
            final(self).next_id == old(self).next_id,
            match r {
                Ok(()) => old(self).spec_has_kid(kid_id) && old(self).notes@.len() < MAX_NOTES
                    && final(self).notes@ == old(self).notes@.push(
                    (NoteRecord { kid_id, quantity: 1i8, created_at: now }),
                ),
                Err(e) => e == RepoError::Storage && !(old(self).spec_has_kid(kid_id)
                    && old(self).notes@.len() < MAX_NOTES) && final(self).notes == old(self).notes,
            },
    {
        self.log_note(kid_id, true, now)
    }

    /// Records a -1 note for the kid; fails with `Storage` as `log_note`.
    pub fn decrement_kid_count(&mut self, kid_id: u32, now: Instant) -> (r: Result<
        (),
        RepoError,
    >)
        requires
            old(self).wf(),
            now.wf(),
        ensures
            final(self).wf(),
            final(self).kids == old(self).kids,
            final(self).settings == old(self).settings,
            final(self).next_id == old(self).next_id,
            match r {
                Ok(()) => old(self).spec_has_kid(kid_id) && old(self).notes@.len() < MAX_NOTES
                    && final(self).notes@ == old(self).notes@.push(
                    (NoteRecord { kid_id, quantity: -1i8, created_at: now }),
                ),
                Err(e) => e == RepoError::Storage && !(old(self).spec_has_kid(kid_id)
                    && old(self).notes@.len() < MAX_NOTES) && final(self).notes == old(self).notes,
            },
    {
        self.log_note(kid_id, false, now)
    }

    /// One summary row per kid: identity, the sum of its note quantities
    /// inside the window starting at `window_start` (0 when none fall in
    /// the window), and the latest note timestamp inside the window.
    pub fn fetch_kid_summaries(&self, window_start: &Instant) -> (r: Vec<Kid>)
        requires
            self.wf(),
            window_start.secs < SECONDS_PER_DAY,
        ensures
            r@.len() == self.kids@.len(),
            forall|i: int|
                0 <= i < r@.len() ==> kid_row_matches(
                    #[trigger] r@[i],
                    self.kids@[i],
                    self.notes@,
                    *window_start,
                ),
    {
        let mut out: Vec<Kid> = Vec::new();
        let mut i: usize = 0;
        while i < self.kids.len()
            invariant
                i <= self.kids@.len(),
                self.wf(),
                window_start.secs < SECONDS_PER_DAY,
                out@.len() == i,
                forall|k: int|
                    0 <= k < i ==> kid_row_matches(
                        #[trigger] out@[k],
                        self.kids@[k],
                        self.notes@,
                        *window_start,
                    ),
            decreases self.kids@.len() - i,
        {
            let id = self.kids[i].id;
            let mut total: i64 = 0;
            let mut latest: Option<Instant> = None;
            let mut j: usize = 0;
            while j < self.notes.len()
                invariant
                    j <= self.notes@.len(),
                    self.wf(),
                    window_start.secs < SECONDS_PER_DAY,
                    total as int == window_sum(self.notes@.take(j as int), id, *window_start),
                    -(j as int) <= total as int <= j as int,
                    latest == window_latest(self.notes@.take(j as int), id, *window_start),
                    latest is Some ==> latest.unwrap().secs < SECONDS_PER_DAY,
                decreases self.notes@.len() - j,
            {
                let n = self.notes[j];
                proof {
                    assert(self.notes@.take(j as int + 1).drop_last() =~= self.notes@.take(
                        j as int,
                    ));
                    assert(self.notes@.take(j as int + 1).last() == self.notes@[j as int]);
                }
                if n.kid_id == id && window_start.le(&n.created_at) {
                    total = total + n.quantity as i64;
                    latest = match latest {
                        None => Some(n.created_at),
                        Some(t) => if n.created_at.le(&t) {
                            Some(t)
                        } else {
                            Some(n.created_at)
                        },
                    };
                }
                j = j + 1;
            }
            proof {
                assert(self.notes@.take(self.notes@.len() as int) =~= self.notes@);
            }
            let name_copy = self.kids[i].name.clone();
            out.push(Kid { name: name_copy, id, count: total, latest_note: latest });
            i = i + 1;
        }
        out
    }

    /// The full home-screen read: the period descriptor for the configured
    /// granularity at `now` and one summary per kid aggregated over the
    /// period window.  Fails with `NotFound` when no settings row exists;
    /// an unrecognized stored granularity is aggregated as monthly.
    pub fn get_kids(&self, now: &Instant) -> (r: Result<GetKidsResponse, RepoError>)
        requires
            self.wf(),
            period_input_ok(*now),
        ensures
            match r {
                Ok(resp) => {
                    &&& self.settings is Some
                    &&& resp.count_metadata.aggregation == current_aggregation(
                        self.settings.unwrap()@,
                        *now,
                    )
                    &&& resp.kids@.len() == self.kids@.len()
                    &&& forall|i: int|
                        0 <= i < resp.kids@.len() ==> kid_row_matches(
                            #[trigger] resp.kids@[i],
                            self.kids@[i],
                            self.notes@,
                            current_window_start(self.settings.unwrap()@, *now),
                        )
                },
                Err(e) => e == RepoError::NotFound && self.settings is None,
            },
    {
        let g = match &self.settings {
            None => {
                return Err(RepoError::NotFound);
            },
            Some(g) => g,
        };
        let pr = compute_current_period(g.as_str(), now);
        let kids = self.fetch_kid_summaries(&pr.1);
        Ok(GetKidsResponse { kids, count_metadata: CountMetadata { aggregation: pr.0 } })
    }

    /// Adds a kid named `name` (trimmed) at time `now` and returns the new
    /// row.  Fails with `Validation` when the trimmed name is empty or
    /// longer than 50 characters, with `Capacity` when 10 kids already
    /// exist, and with `Storage` when the id space is exhausted.
    pub fn add_kid(&mut self, name: String, now: Instant) -> (r: Result<KidSummary, RepoError>)
        requires
            old(self).wf(),
            now.wf(),
        ensures
            final(self).wf(),
            final(self).notes == old(self).notes,
            final(self).settings == old(self).settings,
            match r {
                Ok(ks) => {
                    &&& valid_stored_name(trim_spec(name@))
                    &&& old(self).kids@.len() < MAX_KIDS
                    &&& old(self).next_id < u32::MAX
                    &&& ks.id == old(self).next_id
                    &&& ks.name@ == trim_spec(name@)
                    &&& final(self).kids@.len() == old(self).kids@.len() + 1
                    &&& forall|i: int|
                        0 <= i < old(self).kids@.len() ==> final(self).kids@[i] == old(
                        self).kids@[i]
                    &&& final(self).kids@.last().id == old(self).next_id
                    &&& final(self).kids@.last().name@ == trim_spec(name@)
                    &&& final(self).kids@.last().created_at == now
                    &&& final(self).next_id == old(self).next_id + 1
                },
                Err(e) => {
                    &&& final(self).kids == old(self).kids
                    &&& final(self).next_id == old(self).next_id
                    &&& (e == RepoError::Validation <==> !valid_stored_name(trim_spec(name@)))
                    &&& (e == RepoError::Capacity <==> valid_stored_name(trim_spec(name@)) && old(
                        self).kids@.len() >= MAX_KIDS)
                    &&& (e == RepoError::Storage <==> valid_stored_name(trim_spec(name@)) && old(
                        self).kids@.len() < MAX_KIDS && old(self).next_id == u32::MAX)
                    &&& e != RepoError::NotFound
                },
            },
    {
        let t = trim(name.as_str());
        let tlen = t.unicode_len();
        proof {
            lemma_trim_idempotent(name@);
        }
        if tlen == 0 || tlen > 50 {
            return Err(RepoError::Validation);
        }
        if self.kids.len() >= MAX_KIDS {
            return Err(RepoError::Capacity);
        }
        if self.next_id == u32::MAX {
            return Err(RepoError::Storage);
        }
        let id = self.next_id;
        let stored = String::from_str(t);
        let returned = String::from_str(t);
        self.kids.push(KidRecord { id, name: stored, created_at: now });
        self.next_id = id + 1;
        proof {
            assert forall|k: int| 0 <= k < self.notes@.len() implies has_kid_in(
                self.kids@,
                (#[trigger] self.notes@[k]).kid_id,
            ) by {
                let nid = self.notes@[k].kid_id;
                assert(self.notes@ == old(self).notes@);
                assert((old(self).notes@[k]).kid_id == nid);
                assert(has_kid_in(old(self).kids@, nid));
                let w = choose|i: int|
                    0 <= i < old(self).kids@.len() && (#[trigger] old(self).kids@[i]).id == nid;
                assert(self.kids@[w].id == nid);
            }
        }
        Ok(KidSummary { id, name: returned })
    }

    /// Renames the kid with id `kid_id` to `new_name` (trimmed).  Fails
    /// with `Validation` exactly as `add_kid`; succeeds as a no-op when no
    /// kid has that id.
    pub fn rename_kid(&mut self, kid_id: u32, new_name: String) -> (r: Result<(), RepoError>)
        requires
            old(self).wf(),
        ensures
            final(self).wf(),
            final(self).notes == old(self).notes,
            final(self).settings == old(self).settings,
            final(self).next_id == old(self).next_id,
            final(self).kids@.len() == old(self).kids@.len(),
            match r {
                Ok(()) => {
                    &&& valid_stored_name(trim_spec(new_name@))
                    &&& forall|i: int|
                        0 <= i < old(self).kids@.len() ==> if (#[trigger] old(self).kids@[i]).id
                            == kid_id {
                            final(self).kids@[i].id == kid_id && final(self).kids@[i].name@
                                == trim_spec(new_name@) && final(self).kids@[i].created_at == old(
                                self).kids@[i].created_at
                        } else {
                            final(self).kids@[i] == old(self).kids@[i]
                        }
                },
                Err(e) => e == RepoError::Validation && !valid_stored_name(trim_spec(new_name@))
                    && final(self).kids == old(self).kids,
            },
    {
        let t = trim(new_name.as_str());
        let tlen = t.unicode_len();
        proof {
            lemma_trim_idempotent(new_name@);
        }
        if tlen == 0 || tlen > 50 {
            return Err(RepoError::Validation);
        }
        let owned = String::from_str(t);
        let mut i: usize = 0;
        while i < self.kids.len()
            invariant
                i <= self.kids@.len(),
                self == old(self),
                old(self).wf(),
                valid_stored_name(owned@),
                owned@ == trim_spec(new_name@),
                forall|k: int| 0 <= k < i ==> (#[trigger] self.kids@[k]).id != kid_id,
            decreases self.kids@.len() - i,
        {
            if self.kids[i].id == kid_id {
                let rec = self.kids.remove(i);
                let updated = KidRecord { id: rec.id, name: owned, created_at: rec.created_at };
                self.kids.insert(i, updated);
                proof {
                    assert(self.kids@ =~= old(self).kids@.update(i as int, updated));
                    assert forall|k: int| 0 <= k < self.notes@.len() implies has_kid_in(
                        self.kids@,
                        (#[trigger] self.notes@[k]).kid_id,
                    ) by {
                        let nid = self.notes@[k].kid_id;
                        assert(self.notes@ == old(self).notes@);
                        assert((old(self).notes@[k]).kid_id == nid);
                        assert(has_kid_in(old(self).kids@, nid));
                        let w = choose|v: int|
                            0 <= v < old(self).kids@.len() && (#[trigger] old(self).kids@[v]).id
                                == nid;
                        assert(self.kids@[w].id == nid);
                    }
                }
                return Ok(());
            }
            i = i + 1;
        }
        Ok(())
    }

    /// Deletes the kid with id `kid_id` together with its notes (the
    /// referential constraint of the store); succeeds also when no kid has
    /// that id.
    pub fn delete_kid(&mut self, kid_id: u32) -> (r: Result<(), RepoError>)
        requires
            old(self).wf(),
        ensures
            final(self).wf(),
            r is Ok,
            final(self).kids@ == kids_without(old(self).kids@, kid_id),
            final(self).notes@ == notes_without(old(self).notes@, kid_id),
            final(self).settings == old(self).settings,
            final(self).next_id == old(self).next_id,
    {
        let mut new_kids: Vec<KidRecord> = Vec::new();
        let mut i: usize = 0;
        while i < self.kids.len()
            invariant
                i <= self.kids@.len(),
                self == old(self),
                new_kids@ == kids_without(self.kids@.take(i as int), kid_id),
            decreases self.kids@.len() - i,
        {
            proof {
                assert(self.kids@.take(i as int + 1).drop_last() =~= self.kids@.take(i as int));
                assert(self.kids@.take(i as int + 1).last() == self.kids@[i as int]);
            }
            if self.kids[i].id != kid_id {
                new_kids.push(clone_kid_record(&self.kids[i]));
            }
            i = i + 1;
        }
        let mut new_notes: Vec<NoteRecord> = Vec::new();
        let mut j: usize = 0;
        while j < self.notes.len()
            invariant
                j <= self.notes@.len(),
                self == old(self),
                new_notes@ == notes_without(self.notes@.take(j as int), kid_id),
            decreases self.notes@.len() - j,
        {
            proof {
                assert(self.notes@.take(j as int + 1).drop_last() =~= self.notes@.take(j as int));
                assert(self.notes@.take(j as int + 1).last() == self.notes@[j as int]);
            }
            if self.notes[j].kid_id != kid_id {
                new_notes.push(self.notes[j]);
            }
            j = j + 1;
        }
        proof {
            assert(self.kids@.take(self.kids@.len() as int) =~= self.kids@);
            assert(self.notes@.take(self.notes@.len() as int) =~= self.notes@);
        }
        self.kids = new_kids;
        self.notes = new_notes;
        proof {
            let oldk = old(self).kids@;
            let oldn = old(self).notes@;
            lemma_kids_without_from(oldk, kid_id);
            lemma_kids_without_distinct(oldk, kid_id);
            lemma_notes_without_from(oldn, kid_id);
            assert forall|k: int| 0 <= k < self.kids@.len() implies ((#[trigger] self.kids@[k]).id
                < self.next_id && valid_stored_name(self.kids@[k].name@)
                && self.kids@[k].created_at.wf()) by {
                let w = choose|j2: int| 0 <= j2 < oldk.len() && oldk[j2] == self.kids@[k];
                assert(oldk[w].id < old(self).next_id);
                assert(valid_stored_name(oldk[w].name@));
            }
            assert forall|k: int| 0 <= k < self.notes@.len() implies (((
            #[trigger] self.notes@[k]).quantity == 1 || self.notes@[k].quantity == -1)
                && self.notes@[k].created_at.wf() && has_kid_in(
                self.kids@,
                self.notes@[k].kid_id,
            )) by {
                let w = choose|j2: int| 0 <= j2 < oldn.len() && oldn[j2] == self.notes@[k];
                assert(oldn[w].quantity == 1 || oldn[w].quantity == -1);
                assert(oldn[w].created_at.wf());
                assert(has_kid_in(oldk, oldn[w].kid_id));
                lemma_kids_without_keeps(oldk, kid_id, self.notes@[k].kid_id);
            }
        }
        Ok(())
    }

    /// All kids as {id, name}, sorted by name ascending in code-point
    /// order; the rows are a permutation of the kids table.
    pub fn list_kids(&self) -> (r: Vec<KidSummary>)
        requires
            self.wf(),
        ensures
            r@.len() == self.kids@.len(),
            sorted_by_name(r@),
            summaries_view(r@).to_multiset() == kid_idname_view(self.kids@).to_multiset(),
    {
        let mut out: Vec<KidSummary> = Vec::new();
        let mut i: usize = 0;
        while i < self.kids.len()
            invariant
                i <= self.kids@.len(),
                out@.len() == i,
                forall|k: int|
                    0 <= k < i ==> (#[trigger] out@[k]).id == self.kids@[k].id && out@[k].name@
                        == self.kids@[k].name@,
            decreases self.kids@.len() - i,
        {
            let nm = self.kids[i].name.clone();
            out.push(KidSummary { id: self.kids[i].id, name: nm });
            i = i + 1;
        }
        proof {
            assert(summaries_view(out@) =~= kid_idname_view(self.kids@));
        }
        let ghost base: Seq<(u32, Seq<char>)> = summaries_view(out@);
        let n = out.len();
        let mut si: usize = 1;
        while si < n
            invariant
                1 <= si,
                n == out@.len(),
                n == self.kids@.len(),
                forall|a: int, b: int|
                    0 <= a < b < si && b < out@.len() ==> lex_le(
                        (#[trigger] out@[a]).name@,
                        (#[trigger] out@[b]).name@,
                    ),
                summaries_view(out@).to_multiset() == base.to_multiset(),
                base.to_multiset() == kid_idname_view(self.kids@).to_multiset(),
            decreases n - si,
        {
            let ghost prev = out@;
            let x = out.remove(si);
            let mut k: usize = 0;
            while k < si && str_le(out[k].name.as_str(), x.name.as_str())
                invariant
                    k <= si,
                    si < prev.len(),
                    out@ == prev.remove(si as int),
                    forall|a: int| 0 <= a < k ==> lex_le((#[trigger] out@[a]).name@, x.name@),
                decreases si - k,
            {
                k = k + 1;
            }
            let ghost scan_stop = k as int;
            out.insert(k, x);
            proof {
                broadcast use vstd::seq_lib::group_to_multiset_ensures;
                broadcast use vstd::multiset::group_multiset_axioms;

                let rem = prev.remove(si as int);
                let v = summary_view(x);
                lemma_summaries_view_remove(prev, si as int);
                lemma_summaries_view_insert(rem, scan_stop, x);
                assert(summaries_view(prev)[si as int] == v);
                assert(summaries_view(prev).contains(v));
                assert(summaries_view(prev).to_multiset().count(v) > 0);
                assert(summaries_view(out@) == summaries_view(prev).remove(si as int).insert(
                    scan_stop,
                    v,
                ));
                assert(summaries_view(out@).to_multiset() =~= summaries_view(prev).to_multiset());
                assert forall|a: int, b: int| 0 <= a < b < si + 1 && b < out@.len() implies lex_le(
                    (#[trigger] out@[a]).name@,
                    (#[trigger] out@[b]).name@,
                ) by {
                    let kk = scan_stop;
                    if kk < si {
                        assert(!lex_le(rem[kk].name@, x.name@));
                        lemma_lex_le_total(rem[kk].name@, x.name@);
                        assert(rem[kk] == prev[kk]);
                    }
                    if b < kk {
                        assert(out@[a] == prev[a] && out@[b] == prev[b]);
                    } else if b == kk {
                        assert(out@[a] == prev[a]);
                        assert(out@[b] == x);
                    } else {
                        assert(out@[b] == rem[b - 1]);
                        assert(rem[b - 1] == prev[b - 1]);
                        if a < kk {
                            assert(out@[a] == prev[a]);
                            if a == b - 1 {
                            } else {
                                assert(lex_le(prev[a].name@, prev[b - 1].name@));
                            }
                        } else if a == kk {
                            assert(out@[a] == x);
                            if b - 1 == kk {
                                assert(lex_le(x.name@, prev[kk].name@));
                            } else {
                                assert(lex_le(prev[kk].name@, prev[b - 1].name@));
                                lemma_lex_le_trans(x.name@, prev[kk].name@, prev[b - 1].name@);
                            }
                        } else {
                            assert(out@[a] == rem[a - 1]);
                            assert(rem[a - 1] == prev[a - 1]);
                            assert(lex_le(prev[a - 1].name@, prev[b - 1].name@));
                        }
                    }
                }
            }
            si = si + 1;
        }
        out
    }
}

/// The (id, name) pair a summary row carries.
pub open spec fn summary_view(k: KidSummary) -> (u32, Seq<char>) {
    (k.id, k.name@)
}

/// The (id, name) pairs of a summary list.
pub open spec fn summaries_view(s: Seq<KidSummary>) -> Seq<(u32, Seq<char>)> {
    s.map_values(|k: KidSummary| summary_view(k))
}

/// The (id, name) pairs of the kids table.
pub open spec fn kid_idname_view(s: Seq<KidRecord>) -> Seq<(u32, Seq<char>)> {
    s.map_values(|k: KidRecord| (k.id, k.name@))
}

/// Summary rows sorted by name in lexicographic code-point order.
pub open spec fn sorted_by_name(s: Seq<KidSummary>) -> bool {
    forall|i: int, j: int|
        0 <= i < j < s.len() ==> lex_le((#[trigger] s[i]).name@, (#[trigger] s[j]).name@)
}

/// Removing a row commutes with taking (id, name) views.
pub proof fn lemma_summaries_view_remove(s: Seq<KidSummary>, i: int)
    requires
        0 <= i < s.len(),
    ensures
        summaries_view(s.remove(i)) == summaries_view(s).remove(i),
{
    assert(summaries_view(s.remove(i)) =~= summaries_view(s).remove(i));
}

/// Inserting a row commutes with taking (id, name) views.
pub proof fn lemma_summaries_view_insert(s: Seq<KidSummary>, i: int, v: KidSummary)
    requires
        0 <= i <= s.len(),
    ensures
        summaries_view(s.insert(i, v)) == summaries_view(s).insert(i, summary_view(v)),
{
    assert(summaries_view(s.insert(i, v)) =~= summaries_view(s).insert(i, summary_view(v)));
}

/// A kid with no notes inside the window still gets its row: the summed
/// count is 0 and there is no latest-note timestamp.  (That the row exists
/// at all is the length clause of `fetch_kid_summaries`.)
pub proof fn lemma_empty_window(notes: Seq<NoteRecord>, id: u32, ws: Instant)
    requires
        forall|i: int| 0 <= i < notes.len() ==> !note_in_window(#[trigger] notes[i], id, ws),
    ensures
        window_sum(notes, id, ws) == 0,
        window_latest(notes, id, ws) is None,
    decreases notes.len(),
{
    if notes.len() > 0 {
        lemma_empty_window(notes.drop_last(), id, ws);
    }
}

/// Reading the kid list is idempotent: two responses that meet the
/// `get_kids` postcondition for the same store and the same instant agree
/// on the period descriptor and on every row.
pub proof fn lemma_get_kids_idempotent(
    s: Store,
    now: Instant,
    r1: GetKidsResponse,
    r2: GetKidsResponse,
)
    requires
        s.settings is Some,
        r1.count_metadata.aggregation == current_aggregation(s.settings.unwrap()@, now),
        r2.count_metadata.aggregation == current_aggregation(s.settings.unwrap()@, now),
        r1.kids@.len() == s.kids@.len(),
        r2.kids@.len() == s.kids@.len(),
        forall|i: int|
            0 <= i < r1.kids@.len() ==> kid_row_matches(
                #[trigger] r1.kids@[i],
                s.kids@[i],
                s.notes@,
                current_window_start(s.settings.unwrap()@, now),
            ),
        forall|i: int|
            0 <= i < r2.kids@.len() ==> kid_row_matches(
                #[trigger] r2.kids@[i],
                s.kids@[i],
                s.notes@,
                current_window_start(s.settings.unwrap()@, now),
            ),
    ensures
        r1.count_metadata == r2.count_metadata,
        r1.kids@.len() == r2.kids@.len(),
        forall|i: int|
            0 <= i < r1.kids@.len() ==> (#[trigger] r1.kids@[i]).id == r2.kids@[i].id
                && r1.kids@[i].name@ == r2.kids@[i].name@ && r1.kids@[i].count == r2.kids@[i].count
                && r1.kids@[i].latest_note == r2.kids@[i].latest_note,
{
}

/// Rebuilds a kid row value (the name is cloned).
fn clone_kid_record(k: &KidRecord) -> (r: KidRecord)
    ensures
        r == *k,
{
    KidRecord { id: k.id, name: k.name.clone(), created_at: k.created_at }
}

/// The kid rows that survive deleting id `id`, in their original order.
pub open spec fn kids_without(kids: Seq<KidRecord>, id: u32) -> Seq<KidRecord>
    decreases kids.len(),
{
    if kids.len() == 0 {
        kids
    } else if kids.last().id == id {
        kids_without(kids.drop_last(), id)
    } else {
        kids_without(kids.drop_last(), id).push(kids.last())
    }
}

/// The notes that survive deleting kid id `id`, in their original order.
pub open spec fn notes_without(notes: Seq<NoteRecord>, id: u32) -> Seq<NoteRecord>
    decreases notes.len(),
{
    if notes.len() == 0 {
        notes
    } else if notes.last().kid_id == id {
        notes_without(notes.drop_last(), id)
    } else {
        notes_without(notes.drop_last(), id).push(notes.last())
    }
}

/// Every surviving kid row avoids the deleted id and comes from the
/// original table.
pub proof fn lemma_kids_without_from(kids: Seq<KidRecord>, id: u32)
    ensures
        kids_without(kids, id).len() <= kids.len(),
        forall|i: int|
            0 <= i < kids_without(kids, id).len() ==> (#[trigger] kids_without(kids, id)[i]).id
                != id,
        forall|i: int|
            #![trigger kids_without(kids, id)[i]]
            0 <= i < kids_without(kids, id).len() ==> exists|j: int|
                0 <= j < kids.len() && #[trigger] kids[j] == kids_without(kids, id)[i],
    decreases kids.len(),
{
    if kids.len() > 0 {
        lemma_kids_without_from(kids.drop_last(), id);
        let out = kids_without(kids, id);
        assert forall|i: int| #![trigger out[i]] 0 <= i < out.len() implies exists|j: int|
            0 <= j < kids.len() && #[trigger] kids[j] == out[i] by {
            if kids.last().id != id && i == out.len() - 1 {
                assert(kids[kids.len() - 1] == out[i]);
            } else {
                let rest = kids_without(kids.drop_last(), id);
                let j = choose|j: int| 0 <= j < kids.drop_last().len() && kids.drop_last()[j]
                    == rest[i];
                assert(kids[j] == out[i]);
            }
        }
    }
}

/// Deleting one id keeps the other kid ids present.
pub proof fn lemma_kids_without_keeps(kids: Seq<KidRecord>, id: u32, x: u32)
    requires
        has_kid_in(kids, x),
        x != id,
    ensures
        has_kid_in(kids_without(kids, id), x),
    decreases kids.len(),
{
    let w = choose|i: int| 0 <= i < kids.len() && (#[trigger] kids[i]).id == x;
    if w == kids.len() - 1 {
        let out = kids_without(kids, id);
        assert(out[out.len() - 1].id == x);
    } else {
        assert(kids.drop_last()[w].id == x);
        lemma_kids_without_keeps(kids.drop_last(), id, x);
        let rest = kids_without(kids.drop_last(), id);
        let v = choose|i: int| 0 <= i < rest.len() && (#[trigger] rest[i]).id == x;
        if kids.last().id != id {
            assert(kids_without(kids, id)[v].id == x);
        }
    }
}

/// Deleting preserves distinctness of the kid ids.
pub proof fn lemma_kids_without_distinct(kids: Seq<KidRecord>, id: u32)
    requires
        forall|i: int, j: int|
            0 <= i < j < kids.len() ==> (#[trigger] kids[i]).id != (#[trigger] kids[j]).id,
    ensures
        forall|i: int, j: int|
            0 <= i < j < kids_without(kids, id).len() ==> (#[trigger] kids_without(kids, id)[i]).id
                != (#[trigger] kids_without(kids, id)[j]).id,
    decreases kids.len(),
{
    if kids.len() > 0 {
        lemma_kids_without_distinct(kids.drop_last(), id);
        lemma_kids_without_from(kids.drop_last(), id);
        let out = kids_without(kids, id);
        let rest = kids_without(kids.drop_last(), id);
        assert forall|i: int, j: int| 0 <= i < j < out.len() implies (#[trigger] out[i]).id != (
        #[trigger] out[j]).id by {
            if kids.last().id != id && j == out.len() - 1 {
                let w = choose|w: int| 0 <= w < kids.drop_last().len() && kids.drop_last()[w]
                    == rest[i];
                assert(kids[w].id != kids[kids.len() - 1].id);
            } else {
                assert(out[i] == rest[i] && out[j] == rest[j]);
            }
        }
    }
}

/// Every surviving note avoids the deleted kid and comes from the
/// original ledger.
pub proof fn lemma_notes_without_from(notes: Seq<NoteRecord>, id: u32)
    ensures
        notes_without(notes, id).len() <= notes.len(),
        forall|i: int|
            0 <= i < notes_without(notes, id).len() ==> (#[trigger] notes_without(
                notes,
                id,
            )[i]).kid_id != id,
        forall|i: int|
            #![trigger notes_without(notes, id)[i]]
            0 <= i < notes_without(notes, id).len() ==> exists|j: int|
                0 <= j < notes.len() && #[trigger] notes[j] == notes_without(notes, id)[i],
    decreases notes.len(),
{
    if notes.len() > 0 {
        lemma_notes_without_from(notes.drop_last(), id);
        let out = notes_without(notes, id);
        assert forall|i: int| #![trigger out[i]] 0 <= i < out.len() implies exists|j: int|
            0 <= j < notes.len() && #[trigger] notes[j] == out[i] by {
            if notes.last().kid_id != id && i == out.len() - 1 {
                assert(notes[notes.len() - 1] == out[i]);
            } else {
                let rest = notes_without(notes.drop_last(), id);
                let j = choose|j: int| 0 <= j < notes.drop_last().len() && notes.drop_last()[j]
                    == rest[i];
                assert(notes[j] == out[i]);
            }
        }
    }
}

/// The summary row `row` is what `fetch_kid_summaries` owes for the kid
/// row `rec` given the ledger and the window start.
pub open spec fn kid_row_matches(row: Kid, rec: KidRecord, notes: Seq<NoteRecord>, ws: Instant) -> bool {
    &&& row.id == rec.id
    &&& row.name@ == rec.name@
    &&& row.count as int == window_sum(notes, rec.id, ws)
    &&& row.latest_note == window_latest(notes, rec.id, ws)
}

} // verus!
