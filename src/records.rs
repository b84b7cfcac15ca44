//! The record store: transcription records keyed by their canonical id.
use vstd::prelude::*;
use vstd::string::StringExecFns;
use crate::listing::{is_listing, listed_before, listing_order};
use crate::ids::{matches_at, matches_at_exec, normalize_audio_path, normalized_path};
use crate::text::{chars_of, contains_str, copy_opt, same_str};

verus! {

/// Where a transcription record stands.
#[derive(PartialEq, Eq, Structural, Clone, Copy, Debug)]
pub enum TranscriptionStatus {
    Pending,
    Processing,
    Complete,
    Failed,
    Orphaned,
}

impl Default for TranscriptionStatus {
    fn default() -> (r: Self)
        ensures
            r == TranscriptionStatus::Pending,
    {
        TranscriptionStatus::Pending
    }
}

/// How a recording came to the store; fixed when the record is made.
#[derive(PartialEq, Eq, Structural, Clone, Copy, Debug)]
pub enum TranscriptionSource {
    Recording,
    Import,
    Orphan,
}

impl Default for TranscriptionSource {
    fn default() -> (r: Self)
        ensures
            r == TranscriptionSource::Recording,
    {
        TranscriptionSource::Recording
    }
}

/// One recording and what is known of its transcription. Times are seconds
/// since the Unix epoch.
#[derive(Debug)]
pub struct Transcription {
    pub id: String,
    pub audio_path: String,
    pub text_path: Option<String>,
    pub transcription_text: Option<String>,
    pub created_at: i64,
    pub transcribed_at: Option<i64>,
    pub duration_ms: u64,
    pub file_size_bytes: u64,
    pub language: String,
    pub model: String,
    pub status: TranscriptionStatus,
    pub source: TranscriptionSource,
    pub error_message: Option<String>,
}

impl Transcription {
    /// A field-by-field copy.
    pub fn copy(&self) -> (r: Transcription)
        ensures
            r == *self,
    {
        Transcription {
            id: self.id.clone(),
            audio_path: self.audio_path.clone(),
            text_path: copy_opt(&self.text_path),
            transcription_text: copy_opt(&self.transcription_text),
            created_at: self.created_at,
            transcribed_at: self.transcribed_at,
            duration_ms: self.duration_ms,
            file_size_bytes: self.file_size_bytes,
            language: self.language.clone(),
            model: self.model.clone(),
            status: self.status,
            source: self.source,
            error_message: copy_opt(&self.error_message),
        }
    }
}

/// Whether some record in `recs` has id `id`.
pub open spec fn has_id(recs: Seq<Transcription>, id: Seq<char>) -> bool {
    exists|k: int| 0 <= k < recs.len() && (#[trigger] recs[k]).id@ == id
}

/// No two records share an id.
pub open spec fn unique_ids(recs: Seq<Transcription>) -> bool {
    forall|a: int, b: int|
        0 <= a < recs.len() && 0 <= b < recs.len() && (#[trigger] recs[a]).id@ == (
        #[trigger] recs[b]).id@ ==> a == b
}

/// The index of the last record among `recs[0..n]` with id `id`, or -1.
pub open spec fn index_before(recs: Seq<Transcription>, id: Seq<char>, n: int) -> int
    decreases n,
{
    if n <= 0 {
        -1
    } else if recs[n - 1].id@ == id {
        n - 1
    } else {
        index_before(recs, id, n - 1)
    }
}

/// Where the record with id `id` stands in `recs`, or -1.
pub open spec fn index_of(recs: Seq<Transcription>, id: Seq<char>) -> int {
    index_before(recs, id, recs.len() as int)
}

pub proof fn lemma_index_before(recs: Seq<Transcription>, id: Seq<char>, n: int)
    requires
        0 <= n <= recs.len(),
    ensures
        -1 <= index_before(recs, id, n) < n,
        index_before(recs, id, n) >= 0 ==> recs[index_before(recs, id, n)].id@ == id,
        index_before(recs, id, n) == -1 ==> forall|k: int|
            0 <= k < n ==> (#[trigger] recs[k]).id@ != id,
    decreases n,
{
    if n > 0 && recs[n - 1].id@ != id {
        lemma_index_before(recs, id, n - 1);
    }
}

/// The index of a record is where its id stands, when ids are unique.
pub proof fn lemma_index_of(recs: Seq<Transcription>, id: Seq<char>)
    requires
        unique_ids(recs),
    ensures
        -1 <= index_of(recs, id) < recs.len(),
        has_id(recs, id) <==> index_of(recs, id) >= 0,
        index_of(recs, id) >= 0 ==> recs[index_of(recs, id)].id@ == id,
        forall|k: int| 0 <= k < recs.len() && (#[trigger] recs[k]).id@ == id ==> k == index_of(recs, id),
{
    lemma_index_before(recs, id, recs.len() as int);
}

/// A store error.
#[derive(PartialEq, Eq, Structural, Clone, Copy, Debug)]
pub enum StoreError {
    /// A record with this id is already stored.
    DuplicateId,
    /// No record has this id.
    NotFound,
}

/// Counts over the whole store.
#[derive(PartialEq, Eq, Structural, Clone, Copy, Debug)]
pub struct DatabaseStats {
    pub total_transcriptions: u64,
    pub total_size_bytes: u128,
    pub total_duration_ms: u128,
    pub pending_count: u64,
    pub completed_count: u64,
    pub failed_count: u64,
}

pub open spec fn count_status(recs: Seq<Transcription>, s: TranscriptionStatus) -> nat
    decreases recs.len(),
{
    if recs.len() == 0 {
        0
    } else {
        count_status(recs.drop_last(), s) + if recs.last().status == s {
            1nat
        } else {
            0nat
        }
    }
}

pub open spec fn total_size(recs: Seq<Transcription>) -> nat
    decreases recs.len(),
{
    if recs.len() == 0 {
        0
    } else {
        total_size(recs.drop_last()) + recs.last().file_size_bytes as nat
    }
}

pub open spec fn total_duration(recs: Seq<Transcription>) -> nat
    decreases recs.len(),
{
    if recs.len() == 0 {
        0
    } else {
        total_duration(recs.drop_last()) + recs.last().duration_ms as nat
    }
}

/// The fields of a record to change; `None` leaves a field as it is.
#[derive(Debug)]
pub struct TranscriptionUpdate {
    pub text_path: Option<String>,
    pub transcription_text: Option<String>,
    pub transcribed_at: Option<i64>,
    pub status: Option<TranscriptionStatus>,
    pub error_message: Option<String>,
}

/// Record `e` with the fields that `u` names changed.
pub open spec fn updated_record(e: Transcription, u: TranscriptionUpdate) -> Transcription {
    Transcription {
        text_path: if u.text_path is Some {
            u.text_path
        } else {
            e.text_path
        },
        transcription_text: if u.transcription_text is Some {
            u.transcription_text
        } else {
            e.transcription_text
        },
        transcribed_at: if u.transcribed_at is Some {
            u.transcribed_at
        } else {
            e.transcribed_at
        },
        status: match u.status {
            Some(s) => s,
            None => e.status,
        },
        error_message: if u.error_message is Some {
            u.error_message
        } else {
            e.error_message
        },
        ..e
    }
}

/// The positions of `order` whose record has status `st` (all of them
/// where no status is asked for).
pub open spec fn with_status(order: Seq<usize>, recs: Seq<Transcription>, st: Option<
    TranscriptionStatus,
>) -> Seq<usize>
    decreases order.len(),
{
    if order.len() == 0 {
        order
    } else {
        let rest = with_status(order.drop_last(), recs, st);
        let k = order.last();
        match st {
            Some(s) => if recs[k as int].status == s {
                rest.push(k)
            } else {
                rest
            },
            None => rest.push(k),
        }
    }
}

pub open spec fn created_keys(recs: Seq<Transcription>) -> Seq<i128> {
    recs.map_values(|t: Transcription| t.created_at as i128)
}

/// How many items a page of `limit` from `offset` holds out of `n`.
pub open spec fn page_size(n: int, limit: int, offset: int) -> int {
    if offset >= n {
        0
    } else if limit < n - offset {
        limit
    } else {
        n - offset
    }
}

impl Transcription {
    /// The record of a file found without its text, waiting to be
    /// transcribed.
    pub fn new_orphan(id: String, audio_path: String, now: i64) -> (r: Transcription)
        ensures
            r.id == id,
            r.audio_path == audio_path,
            r.status == TranscriptionStatus::Orphaned,
            r.source == TranscriptionSource::Orphan,
            r.created_at == now,
            r.text_path is None,
            r.transcription_text is None,
            r.transcribed_at is None,
            r.error_message is None,
            r.duration_ms == 0,
            r.file_size_bytes == 0,
    {
        Transcription {
            id,
            audio_path,
            text_path: None,
            transcription_text: None,
            created_at: now,
            transcribed_at: None,
            duration_ms: 0,
            file_size_bytes: 0,
            language: String::from_str("en"),
            model: String::from_str("base.en"),
            status: TranscriptionStatus::Orphaned,
            source: TranscriptionSource::Orphan,
            error_message: None,
        }
    }

    /// The record of a recording that has just been captured.
    pub fn new_recording(id: String, audio_path: String, now: i64) -> (r: Transcription)
        ensures
            r.id == id,
            r.audio_path == audio_path,
            r.status == TranscriptionStatus::Pending,
            r.source == TranscriptionSource::Recording,
            r.created_at == now,
            r.text_path is None,
            r.transcription_text is None,
            r.transcribed_at is None,
            r.error_message is None,
            r.duration_ms == 0,
            r.file_size_bytes == 0,
    {
        Transcription {
            id,
            audio_path,
            text_path: None,
            transcription_text: None,
            created_at: now,
            transcribed_at: None,
            duration_ms: 0,
            file_size_bytes: 0,
            language: String::from_str("en"),
            model: String::from_str("base.en"),
            status: TranscriptionStatus::Pending,
            source: TranscriptionSource::Recording,
            error_message: None,
        }
    }
}

/// A path written the raw Windows way: with a drive (`:\\`) or starting
/// with `\\\\`.
pub open spec fn is_raw_path(p: Seq<char>) -> bool {
    (exists|j: int| matches_at(p, seq![':', '\\'], j)) || (p.len() >= 2 && p[0] == '\\' && p[1]
        == '\\')
}

/// The record listed at `i` of `order` shares its normalized path with one
/// listed before it.
pub open spec fn dup_earlier(order: Seq<usize>, recs: Seq<Transcription>, i: int) -> bool {
    exists|i2: int|
        0 <= i2 < i && normalized_path(recs[order[i2] as int].audio_path@) == normalized_path(
            recs[order[i] as int].audio_path@,
        )
}

/// Cleanup removes the record listed at `i`: a later copy of a path, or a
/// raw spelling.
pub open spec fn doomed_at(order: Seq<usize>, recs: Seq<Transcription>, i: int) -> bool {
    dup_earlier(order, recs, i) || is_raw_path(recs[order[i] as int].audio_path@)
}

/// Cleanup removes the record at position `k`.
pub open spec fn doomed_record(order: Seq<usize>, recs: Seq<Transcription>, k: int) -> bool {
    exists|i: int| 0 <= i < order.len() && order[i] == k && doomed_at(order, recs, i)
}

/// The records among `recs[0..n]` that cleanup keeps, in order.
pub open spec fn kept_records(order: Seq<usize>, recs: Seq<Transcription>, n: int) -> Seq<
    Transcription,
>
    decreases n,
{
    if n <= 0 {
        Seq::empty()
    } else if doomed_record(order, recs, n - 1) {
        kept_records(order, recs, n - 1)
    } else {
        kept_records(order, recs, n - 1).push(recs[n - 1])
    }
}

pub open spec fn norm_at(ord: Seq<usize>, recs: Seq<Transcription>, i: int) -> Seq<char> {
    normalized_path(recs[ord[i] as int].audio_path@)
}

/// `doom` marks the records that cleanup removes among the first `i` listed.
#[verifier::opaque]
pub open spec fn doom_upto(doom: Seq<bool>, ord: Seq<usize>, recs: Seq<Transcription>, i: int) -> bool {
    forall|k: int|
        0 <= k < doom.len() ==> ((#[trigger] doom[k]) <==> exists|i2: int|
            0 <= i2 < i && ord[i2] == k && doomed_at(ord, recs, i2))
}

proof fn lemma_doom_step(
    doom: Seq<bool>,
    ord: Seq<usize>,
    recs: Seq<Transcription>,
    i: int,
    gone: bool,
    doom2: Seq<bool>,
)
    requires
        0 <= i < ord.len(),
        doom.len() == recs.len(),
        is_listing(ord, created_keys(recs)),
        doom_upto(doom, ord, recs, i),
        gone == doomed_at(ord, recs, i),
        doom2 == doom.update(ord[i] as int, gone),
    ensures
        doom_upto(doom2, ord, recs, i + 1),
{
    reveal(doom_upto);
    let k = ord[i] as int;
    assert forall|k2: int| 0 <= k2 < doom2.len() implies ((#[trigger] doom2[k2]) <==> exists|i2: int|
        0 <= i2 < i + 1 && ord[i2] == k2 && doomed_at(ord, recs, i2)) by {
        if k2 == k {
            assert forall|i2: int| 0 <= i2 < i implies ord[i2] != k2 by {
                assert(listed_before(created_keys(recs), ord[i2] as int, ord[i] as int));
            }
        } else {
            assert(doom2[k2] == doom[k2]);
        }
    }
}

fn is_raw_path_exec(p: &str) -> (r: bool)
    ensures
        r == is_raw_path(p@),
{
    let v = chars_of(p);
    let pat = vec![':', '\\'];
    assert(pat@ =~= seq![':', '\\']);
    if v.len() >= 2 && v[0] == '\\' && v[1] == '\\' {
        return true;
    }
    let mut j: usize = 0;
    while j < v.len()
        invariant
            j <= v@.len(),
            v@ == p@,
            pat@ == seq![':', '\\'],
            forall|i: int| 0 <= i < j ==> !matches_at(p@, seq![':', '\\'], i),
        decreases v@.len() - j,
    {
        if matches_at_exec(&v, &pat, j) {
            return true;
        }
        j = j + 1;
    }
    assert forall|i: int| !matches_at(p@, seq![':', '\\'], i) by {
        if 0 <= i && i + 2 <= p@.len() {
            assert(i < j);
        }
    }
    false
}

/// The records, in the order they were put.
pub struct RecordStore {
    records: Vec<Transcription>,
}

impl View for RecordStore {
    type V = Seq<Transcription>;

    closed spec fn view(&self) -> Seq<Transcription> {
        self.records@
    }
}

impl RecordStore {
    /// Ids are unique.
    pub open spec fn wf(&self) -> bool {
        unique_ids(self@)
    }

    pub fn new() -> (r: RecordStore)
        ensures
            r@ == Seq::<Transcription>::empty(),
            r.wf(),
    {
        RecordStore { records: Vec::new() }
    }

    /// A store holding `records` as they are, refused where two share an id.
    pub fn restore(records: Vec<Transcription>) -> (r: Result<RecordStore, StoreError>)
        ensures
            r is Ok <==> unique_ids(records@),
            r is Err ==> r == Err::<RecordStore, StoreError>(StoreError::DuplicateId),
            r matches Ok(s) ==> s@ == records@ && s.wf(),
    {
        let ghost all = records@;
        let mut rest = records;
        let mut s = RecordStore::new();
        while rest.len() > 0
            invariant
                s.wf(),
                s@ + rest@ == all,
                all == records@,
            decreases rest@.len(),
        {
            let ghost before = s@;
            let t = rest.remove(0);
            let ghost t2 = t;
            match s.insert_transcription(t) {
                Ok(()) => {
                    assert(s@ + rest@ =~= all);
                },
                Err(_) => {
                    proof {
                        let w = choose|w: int| 0 <= w < before.len() && (#[trigger] before[w]).id@ == t2.id@;
                        assert(all[w] == before[w]);
                        assert(all[before.len() as int] == t2);
                        assert(all[w].id@ == all[before.len() as int].id@);
                        assert(!unique_ids(all));
                    }
                    return Err(StoreError::DuplicateId);
                },
            }
        }
        assert(s@ =~= all);
        Ok(s)
    }

    pub fn len(&self) -> (r: usize)
        ensures
            r == self@.len(),
    {
        self.records.len()
    }

    /// The record at position `i`.
    pub fn at(&self, i: usize) -> (r: &Transcription)
        requires
            i < self@.len(),
        ensures
            *r == self@[i as int],
    {
        &self.records[i]
    }

    /// Where the record with id `id` stands.
    pub fn find(&self, id: &str) -> (r: Option<usize>)
        requires
            self.wf(),
        ensures
            has_id(self@, id@) <==> r is Some,
            r matches Some(k) ==> k as int == index_of(self@, id@) && k < self@.len()
                && self@[k as int].id@ == id@,
    {
        proof {
            lemma_index_of(self@, id@);
        }
        let mut j: usize = self.records.len();
        while j > 0
            invariant
                j <= self@.len(),
                self@ == self.records@,
                index_of(self@, id@) == index_before(self@, id@, j as int),
            decreases j,
        {
            if same_str(self.records[j - 1].id.as_str(), id) {
                return Some(j - 1);
            }
            j = j - 1;
        }
        None
    }

    /// Puts a new record; refused where its id is already stored.
    pub fn insert_transcription(&mut self, t: Transcription) -> (r: Result<(), StoreError>)
        requires
            old(self).wf(),
        ensures
            final(self).wf(),
            has_id(old(self)@, t.id@) ==> r == Err::<(), StoreError>(StoreError::DuplicateId)
                && final(self)@ == old(self)@,
            !has_id(old(self)@, t.id@) ==> r is Ok && final(self)@ == old(self)@.push(t),
    {
        match self.find(t.id.as_str()) {
            Some(_) => Err(StoreError::DuplicateId),
            None => {
                let ghost t2 = t;
                self.records.push(t);
                proof {
                    let s = self@;
                    assert forall|a: int, b: int|
                        0 <= a < s.len() && 0 <= b < s.len() && (#[trigger] s[a]).id@ == (
                        #[trigger] s[b]).id@ implies a == b by {
                        if a == s.len() - 1 && b < s.len() - 1 {
                            assert(old(self)@[b].id@ == t2.id@);
                        }
                        if b == s.len() - 1 && a < s.len() - 1 {
                            assert(old(self)@[a].id@ == t2.id@);
                        }
                    }
                }
                Ok(())
            },
        }
    }

    /// A copy of the record with id `id`.
    pub fn get_transcription(&self, id: &str) -> (r: Option<Transcription>)
        requires
            self.wf(),
        ensures
            has_id(self@, id@) <==> r is Some,
            r matches Some(t) ==> t == self@[index_of(self@, id@)],
    {
        match self.find(id) {
            Some(k) => Some(self.records[k].copy()),
            None => None,
        }
    }

    /// Sets the status of the record with id `id`; the error message is kept
    /// only with the status `Failed`.
    pub fn update_transcription_status(
        &mut self,
        id: &str,
        status: TranscriptionStatus,
        error: Option<String>,
    ) -> (r: Result<(), StoreError>)
        requires
            old(self).wf(),
        ensures
            final(self).wf(),
            !has_id(old(self)@, id@) ==> r == Err::<(), StoreError>(StoreError::NotFound)
                && final(self)@ == old(self)@,
            has_id(old(self)@, id@) ==> r is Ok && {
                let k = index_of(old(self)@, id@);
                final(self)@ == old(self)@.update(
                    k,
                    Transcription {
                        status: status,
                        error_message: if status == TranscriptionStatus::Failed {
                            error
                        } else {
                            None
                        },
                        ..old(self)@[k]
                    },
                )
            },
    {
        match self.find(id) {
            Some(k) => {
                let e = if status == TranscriptionStatus::Failed {
                    error
                } else {
                    None
                };
                self.set_status_at(k, status, e);
                Ok(())
            },
            None => Err(StoreError::NotFound),
        }
    }

    /// Sets status and error message of the record at position `k`.
    pub fn set_status_at(&mut self, k: usize, status: TranscriptionStatus, error: Option<String>)
        requires
            old(self).wf(),
            k < old(self)@.len(),
        ensures
            final(self).wf(),
            final(self)@ == old(self)@.update(
                k as int,
                Transcription { status: status, error_message: error, ..old(self)@[k as int] },
            ),
    {
        self.records[k].status = status;
        self.records[k].error_message = error;
        proof {
            assert(self@[k as int].id@ == old(self)@[k as int].id@);
            assert forall|a: int| 0 <= a < self@.len() implies (#[trigger] self@[a]).id@ == old(self)@[a].id@ by {}
        }
    }

    /// Replaces the record at position `k` by one with the same id.
    pub fn replace_at(&mut self, k: usize, t: Transcription)
        requires
            old(self).wf(),
            k < old(self)@.len(),
            t.id@ == old(self)@[k as int].id@,
        ensures
            final(self).wf(),
            final(self)@ == old(self)@.update(k as int, t),
    {
        self.records[k] = t;
        proof {
            assert forall|a: int| 0 <= a < self@.len() implies (#[trigger] self@[a]).id@ == old(self)@[a].id@ by {}
        }
    }

    /// Takes out the record with id `id`; whether there was one.
    pub fn delete_transcription(&mut self, id: &str) -> (r: bool)
        requires
            old(self).wf(),
        ensures
            final(self).wf(),
            r == has_id(old(self)@, id@),
            r ==> final(self)@ == old(self)@.remove(index_of(old(self)@, id@)),
            !r ==> final(self)@ == old(self)@,
    {
        match self.find(id) {
            Some(k) => {
                self.records.remove(k);
                proof {
                    let s = self@;
                    let o = old(self)@;
                    assert forall|a: int, b: int|
                        0 <= a < s.len() && 0 <= b < s.len() && (#[trigger] s[a]).id@ == (
                        #[trigger] s[b]).id@ implies a == b by {
                        let a2 = if a < k { a } else { a + 1 };
                        let b2 = if b < k { b } else { b + 1 };
                        assert(s[a] == o[a2]);
                        assert(s[b] == o[b2]);
                    }
                }
                true
            },
            None => false,
        }
    }

    /// The ids of all records, in store order.
    pub fn get_all_transcription_ids(&self) -> (r: Vec<String>)
        ensures
            r@.len() == self@.len(),
            forall|i: int| 0 <= i < r@.len() ==> (#[trigger] r@[i])@ == self@[i].id@,
    {
        let mut out: Vec<String> = Vec::new();
        let mut i: usize = 0;
        while i < self.records.len()
            invariant
                i <= self@.len(),
                self@ == self.records@,
                out@.len() == i,
                forall|j: int| 0 <= j < i ==> (#[trigger] out@[j])@ == self@[j].id@,
            decreases self@.len() - i,
        {
            out.push(self.records[i].id.clone());
            i = i + 1;
        }
        out
    }

    /// Removes every record.
    pub fn clear_all_transcriptions(&mut self)
        ensures
            final(self)@ == Seq::<Transcription>::empty(),
            final(self).wf(),
    {
        self.records.clear();
    }

    /// Totals and counts by status.
    pub fn get_stats(&self) -> (r: DatabaseStats)
        ensures
            r.total_transcriptions == self@.len(),
            r.total_size_bytes == total_size(self@),
            r.total_duration_ms == total_duration(self@),
            r.pending_count == count_status(self@, TranscriptionStatus::Pending),
            r.completed_count == count_status(self@, TranscriptionStatus::Complete),
            r.failed_count == count_status(self@, TranscriptionStatus::Failed),
    {
        let mut size: u128 = 0;
        let mut dur: u128 = 0;
        let mut pending: u64 = 0;
        let mut complete: u64 = 0;
        let mut failed: u64 = 0;
        let mut i: usize = 0;
        while i < self.records.len()
            invariant
                i <= self@.len(),
                self@ == self.records@,
                size == total_size(self@.take(i as int)),
                dur == total_duration(self@.take(i as int)),
                pending == count_status(self@.take(i as int), TranscriptionStatus::Pending),
                complete == count_status(self@.take(i as int), TranscriptionStatus::Complete),
                failed == count_status(self@.take(i as int), TranscriptionStatus::Failed),
                size <= i * 0x1_0000_0000_0000_0000,
                dur <= i * 0x1_0000_0000_0000_0000,
                pending <= i,
                complete <= i,
                failed <= i,
            decreases self@.len() - i,
        {
            let t = &self.records[i];
            proof {
                let p = self@.take(i + 1);
                assert(p.drop_last() =~= self@.take(i as int));
                assert(p.last() == self@[i as int]);
                assert((i + 1) * 0x1_0000_0000_0000_0000 == i * 0x1_0000_0000_0000_0000
                    + 0x1_0000_0000_0000_0000) by (nonlinear_arith);
                assert(i * 0x1_0000_0000_0000_0000 <= 0xffff_ffff_ffff_ffff * 0x1_0000_0000_0000_0000)
                    by (nonlinear_arith)
                    requires
                        i <= 0xffff_ffff_ffff_ffff,
                ;
            }
            size = size + t.file_size_bytes as u128;
            dur = dur + t.duration_ms as u128;
            if t.status == TranscriptionStatus::Pending {
                pending = pending + 1;
            } else if t.status == TranscriptionStatus::Complete {
                complete = complete + 1;
            } else if t.status == TranscriptionStatus::Failed {
                failed = failed + 1;
            }
            i = i + 1;
        }
        assert(self@.take(i as int) =~= self@);
        DatabaseStats {
            total_transcriptions: self.records.len() as u64,
            total_size_bytes: size,
            total_duration_ms: dur,
            pending_count: pending,
            completed_count: complete,
            failed_count: failed,
        }
    }

    /// Changes the fields that `u` names in the record with id `id`.
    pub fn update_transcription(&mut self, id: &str, u: TranscriptionUpdate) -> (r: Result<
        (),
        StoreError,
    >)
        requires
            old(self).wf(),
        ensures
            final(self).wf(),
            !has_id(old(self)@, id@) ==> r == Err::<(), StoreError>(StoreError::NotFound)
                && final(self)@ == old(self)@,
            has_id(old(self)@, id@) ==> r is Ok && final(self)@ == old(self)@.update(
                index_of(old(self)@, id@),
                updated_record(old(self)@[index_of(old(self)@, id@)], u),
            ),
    {
        match self.find(id) {
            Some(k) => {
                let e = self.records[k].copy();
                let n = Transcription {
                    text_path: if u.text_path.is_some() {
                        u.text_path
                    } else {
                        e.text_path
                    },
                    transcription_text: if u.transcription_text.is_some() {
                        u.transcription_text
                    } else {
                        e.transcription_text
                    },
                    transcribed_at: if u.transcribed_at.is_some() {
                        u.transcribed_at
                    } else {
                        e.transcribed_at
                    },
                    status: match u.status {
                        Some(s) => s,
                        None => e.status,
                    },
                    error_message: if u.error_message.is_some() {
                        u.error_message
                    } else {
                        e.error_message
                    },
                    ..e
                };
                self.replace_at(k, n);
                Ok(())
            },
            None => Err(StoreError::NotFound),
        }
    }

    /// A page of the records, newest first, of status `status` where one
    /// is given.
    pub fn list_transcriptions(
        &self,
        limit: usize,
        offset: usize,
        status: Option<TranscriptionStatus>,
    ) -> (r: Vec<Transcription>)
        ensures
            exists|order: Seq<usize>|
                {
                    let sel = #[trigger] with_status(order, self@, status);
                    &&& is_listing(order, created_keys(self@))
                    &&& r@.len() == page_size(sel.len() as int, limit as int, offset as int)
                    &&& forall|a: int|
                        0 <= a < r@.len() ==> (#[trigger] r@[a]) == self@[sel[offset + a] as int]
                },
    {
        let mut keys: Vec<i128> = Vec::new();
        let mut i: usize = 0;
        while i < self.records.len()
            invariant
                i <= self@.len(),
                self@ == self.records@,
                keys@ == created_keys(self@).take(i as int),
            decreases self@.len() - i,
        {
            keys.push(self.records[i].created_at as i128);
            i = i + 1;
            assert(keys@ =~= created_keys(self@).take(i as int));
        }
        assert(keys@ =~= created_keys(self@));
        let order = listing_order(&keys);
        let mut sel: Vec<usize> = Vec::new();
        let mut j: usize = 0;
        while j < order.len()
            invariant
                j <= order@.len(),
                is_listing(order@, created_keys(self@)),
                self@ == self.records@,
                sel@ == with_status(order@.take(j as int), self@, status),
                forall|a: int| 0 <= a < sel@.len() ==> (#[trigger] sel@[a]) < self@.len(),
            decreases order@.len() - j,
        {
            proof {
                let p = order@.take(j + 1);
                assert(p.drop_last() =~= order@.take(j as int));
                assert(p.last() == order@[j as int]);
            }
            let k = order[j];
            match status {
                Some(st) => {
                    if self.records[k].status == st {
                        sel.push(k);
                    }
                },
                None => {
                    sel.push(k);
                },
            }
            j = j + 1;
        }
        assert(order@.take(j as int) =~= order@);
        let n = sel.len();
        let mut out: Vec<Transcription> = Vec::new();
        if offset >= n {
            return out;
        }
        let end = if limit < n - offset {
            offset + limit
        } else {
            n
        };
        let mut a: usize = offset;
        while a < end
            invariant
                offset <= a <= end <= n,
                n == sel@.len(),
                self@ == self.records@,
                is_listing(order@, created_keys(self@)),
                sel@ == with_status(order@, self@, status),
                forall|b: int| 0 <= b < sel@.len() ==> (#[trigger] sel@[b]) < self@.len(),
                out@.len() == a - offset,
                forall|b: int| 0 <= b < out@.len() ==> (#[trigger] out@[b]) == self@[sel@[offset + b] as int],
            decreases end - a,
        {
            let t = self.records[sel[a]].copy();
            out.push(t);
            a = a + 1;
        }
        out
    }

    /// Removes duplicate records: going from the newest, a record whose
    /// normalized path an earlier one already has goes, and so does one
    /// whose path is spelled the raw Windows way. Returns how many went.
    pub fn cleanup_duplicates(&mut self) -> (r: usize)
        requires
            old(self).wf(),
        ensures
            final(self).wf(),
            exists|order: Seq<usize>|
                {
                    &&& is_listing(order, created_keys(old(self)@))
                    &&& #[trigger] kept_records(order, old(self)@, old(self)@.len() as int)
                        == final(self)@
                },
            r == old(self)@.len() - final(self)@.len(),
    {
        let n = self.records.len();
        let mut keys: Vec<i128> = Vec::new();
        let mut i: usize = 0;
        while i < n
            invariant
                n == self@.len(),
                i <= n,
                self@ == self.records@,
                keys@ == created_keys(self@).take(i as int),
            decreases n - i,
        {
            keys.push(self.records[i].created_at as i128);
            i = i + 1;
            assert(keys@ =~= created_keys(self@).take(i as int));
        }
        assert(keys@ =~= created_keys(self@));
        let order = listing_order(&keys);
        let ghost recs = self@;
        let ghost ord = order@;
        let mut doom: Vec<bool> = Vec::new();
        let mut z: usize = 0;
        while z < n
            invariant
                z <= n,
                doom@.len() == z,
                forall|k: int| 0 <= k < z ==> !(#[trigger] doom@[k]),
            decreases n - z,
        {
            doom.push(false);
            z = z + 1;
        }
        let mut seen: Vec<String> = Vec::new();
        let ghost mut seen_idx: Seq<int> = Seq::empty();
        let ghost mut where_seen: Seq<int> = Seq::empty();
        let mut i: usize = 0;
        proof {
            reveal(doom_upto);
        }
        while i < n
            invariant
                n == recs.len(),
                recs == self@,
                self@ == self.records@,
                ord == order@,
                is_listing(ord, created_keys(recs)),
                i <= n,
                doom@.len() == n,
                doom_upto(doom@, ord, recs, i as int),
                seen_idx.len() == seen@.len(),
                forall|q: int|
                    0 <= q < seen@.len() ==> 0 <= #[trigger] seen_idx[q] < i && seen@[q]@ == norm_at(
                        ord,
                        recs,
                        seen_idx[q],
                    ),
                where_seen.len() == i,
                forall|i2: int|
                    0 <= i2 < i ==> 0 <= #[trigger] where_seen[i2] < seen@.len()
                        && seen@[where_seen[i2]]@ == norm_at(ord, recs, i2),
            decreases n - i,
        {
            let k = order[i];
            let norm = normalize_audio_path(self.records[k].audio_path.as_str());
            let dup = contains_str(&seen, norm.as_str());
            let raw = is_raw_path_exec(self.records[k].audio_path.as_str());
            proof {
                if dup {
                    let q = choose|q: int| 0 <= q < seen@.len() && (#[trigger] seen@[q])@ == norm@;
                    let i2 = seen_idx[q];
                    assert(norm_at(ord, recs, i2) == norm_at(ord, recs, i as int));
                    assert(dup_earlier(ord, recs, i as int));
                    where_seen = where_seen.push(q);
                } else {
                    if dup_earlier(ord, recs, i as int) {
                        let i2 = choose|i2: int|
                            0 <= i2 < i && normalized_path(recs[ord[i2] as int].audio_path@)
                                == normalized_path(recs[ord[i as int] as int].audio_path@);
                        let q = where_seen[i2];
                        assert(seen@[q]@ == norm@);
                        assert(false);
                    }
                    where_seen = where_seen.push(seen@.len() as int);
                    seen_idx = seen_idx.push(i as int);
                }
            }
            if !dup {
                seen.push(norm);
            }
            let gone = dup || raw;
            let ghost doom_before = doom@;
            doom[k] = gone;
            proof {
                lemma_doom_step(doom_before, ord, recs, i as int, gone, doom@);
            }
            i = i + 1;
        }
        proof {
            reveal(doom_upto);
        }
        let mut kept: Vec<Transcription> = Vec::new();
        let ghost mut src: Seq<int> = Seq::empty();
        let mut removed: usize = 0;
        let mut k: usize = 0;
        while k < n
            invariant
                n == recs.len(),
                recs == self@,
                self@ == self.records@,
                unique_ids(recs),
                k <= n,
                doom@.len() == n,
                forall|k2: int| 0 <= k2 < n ==> ((#[trigger] doom@[k2]) <==> doomed_record(ord, recs, k2)),
                kept@ == kept_records(ord, recs, k as int),
                removed + kept@.len() == k,
                src.len() == kept@.len(),
                forall|a: int| 0 <= a < src.len() ==> 0 <= #[trigger] src[a] < k,
                forall|a: int, b: int| 0 <= a < b < src.len() ==> #[trigger] src[a] < #[trigger] src[b],
                forall|a: int| 0 <= a < src.len() ==> kept@[a] == recs[#[trigger] src[a]],
            decreases n - k,
        {
            if doom[k] {
                removed = removed + 1;
            } else {
                kept.push(self.records[k].copy());
                proof {
                    src = src.push(k as int);
                }
            }
            k = k + 1;
        }
        proof {
            let s = kept@;
            assert forall|a: int, b: int|
                0 <= a < s.len() && 0 <= b < s.len() && (#[trigger] s[a]).id@ == (
                #[trigger] s[b]).id@ implies a == b by {
                assert(s[a] == recs[src[a]]);
                assert(s[b] == recs[src[b]]);
                if a < b {
                    assert(src[a] < src[b]);
                }
                if b < a {
                    assert(src[b] < src[a]);
                }
            }
        }
        self.records = kept;
        removed
    }
}

} // verus!
