//! Feedback entries and the store that keeps them.

pub mod mod_rs;

use vstd::prelude::*;
use vstd::hash_map::StringHashMap;
use crate::clock::Timestamp;
use crate::error::KbError;
use crate::ident::{random_id, RANDOM_ID_LEN};
use crate::json::JsonValue;
use crate::text::{clone_optional_text, clone_strings, distinct, str_eq, text_view};

verus! {

/// Where a piece of feedback came from.
#[derive(Clone, Copy, Debug, PartialEq, Eq, Structural, Hash)]
pub enum FeedbackSource {
    /// The user pressed a button or filled a form.
    ExplicitUI,
    /// The user typed a feedback command.
    UserCommand,
    /// Read out of what the user wrote.
    ImplicitSentiment,
    /// A tool reported an error.
    ToolInternalError,
    /// The agent saw it itself.
    AgentObservation,
    /// Something the system noticed, such as an unhandled error.
    SystemEvent,
}

/// One piece of feedback.
#[derive(Debug)]
pub struct FeedbackEntry {
    pub feedback_id: String,
    pub session_id: String,
    pub user_id: Option<String>,
    pub related_trace_id: Option<String>,
    pub related_log_id: Option<String>,
    pub timestamp: Timestamp,
    pub source: FeedbackSource,
    /// From 1 to 5.
    pub user_rating_stars: Option<u8>,
    pub correction_suggestion_text: Option<String>,
    pub is_error_report: bool,
    pub custom_tags: Vec<String>,
    pub feedback_data: JsonValue,
}

/// A rating brought into the range from 1 to 5.
pub open spec fn clamped_stars(stars: u8) -> u8 {
    if stars < 1 {
        1
    } else if stars > 5 {
        5
    } else {
        stars
    }
}

impl FeedbackEntry {
    /// Whether two entries say the same: every field equal, the data as a
    /// document.
    pub open spec fn same(&self, other: &FeedbackEntry) -> bool {
        &&& self.feedback_id == other.feedback_id
        &&& self.session_id == other.session_id
        &&& self.user_id == other.user_id
        &&& self.related_trace_id == other.related_trace_id
        &&& self.related_log_id == other.related_log_id
        &&& self.timestamp == other.timestamp
        &&& self.source == other.source
        &&& self.user_rating_stars == other.user_rating_stars
        &&& self.correction_suggestion_text == other.correction_suggestion_text
        &&& self.is_error_report == other.is_error_report
        &&& self.custom_tags@ == other.custom_tags@
        &&& self.feedback_data@ == other.feedback_data@
    }

    /// An entry taken at `now` under `feedback_id`, with nothing optional set
    /// but the user.
    pub fn new_at(
        feedback_id: String,
        session_id: String,
        user_id: Option<String>,
        source: FeedbackSource,
        feedback_data: JsonValue,
        now: Timestamp,
    ) -> (r: FeedbackEntry)
        ensures
            r.feedback_id == feedback_id,
            r.session_id == session_id,
            r.user_id == user_id,
            r.related_trace_id is None,
            r.related_log_id is None,
            r.timestamp == now,
            r.source == source,
            r.user_rating_stars is None,
            r.correction_suggestion_text is None,
            !r.is_error_report,
            r.custom_tags@.len() == 0,
            r.feedback_data == feedback_data,
    {
        FeedbackEntry {
            feedback_id,
            session_id,
            user_id,
            related_trace_id: None,
            related_log_id: None,
            timestamp: now,
            source,
            user_rating_stars: None,
            correction_suggestion_text: None,
            is_error_report: false,
            custom_tags: Vec::new(),
            feedback_data,
        }
    }

    /// An entry taken now, under a random identity. Whatever the clock and the
    /// random source give, the rest is as in [`FeedbackEntry::new_at`].
    pub fn new(
        session_id: String,
        user_id: Option<String>,
        source: FeedbackSource,
        feedback_data: JsonValue,
    ) -> (r: FeedbackEntry)
        ensures
            r.feedback_id@.len() == RANDOM_ID_LEN,
            r.session_id == session_id,
            r.user_id == user_id,
            r.related_trace_id is None,
            r.related_log_id is None,
            r.source == source,
            r.user_rating_stars is None,
            r.correction_suggestion_text is None,
            !r.is_error_report,
            r.custom_tags@.len() == 0,
            r.feedback_data == feedback_data,
    {
        FeedbackEntry::new_at(
            random_id(),
            session_id,
            user_id,
            source,
            feedback_data,
            Timestamp::now(),
        )
    }

    /// The entry linked to a reasoning trace.
    pub fn with_related_trace_id(self, trace_id: String) -> (r: FeedbackEntry)
        ensures
            r == (FeedbackEntry { related_trace_id: Some(trace_id), ..self }),
    {
        let mut entry = self;
        entry.related_trace_id = Some(trace_id);
        entry
    }

    /// The entry with a rating, brought into the range from 1 to 5.
    pub fn with_rating_stars(self, stars: u8) -> (r: FeedbackEntry)
        ensures
            r == (FeedbackEntry { user_rating_stars: Some(clamped_stars(stars)), ..self }),
    {
        let mut entry = self;
        let clamped: u8 = if stars < 1 {
            1
        } else if stars > 5 {
            5
        } else {
            stars
        };
        entry.user_rating_stars = Some(clamped);
        entry
    }

    /// The entry with the user's suggested correction.
    pub fn with_correction(self, correction: String) -> (r: FeedbackEntry)
        ensures
            r == (FeedbackEntry { correction_suggestion_text: Some(correction), ..self }),
    {
        let mut entry = self;
        entry.correction_suggestion_text = Some(correction);
        entry
    }

    /// The entry marked, or not, as a report of an error.
    pub fn as_error_report(self, is_error: bool) -> (r: FeedbackEntry)
        ensures
            r == (FeedbackEntry { is_error_report: is_error, ..self }),
    {
        let mut entry = self;
        entry.is_error_report = is_error;
        entry
    }

    /// The entry with one more tag, after those it has.
    pub fn add_tag(self, tag: String) -> (r: FeedbackEntry)
        ensures
            r.custom_tags@ == self.custom_tags@.push(tag),
            r == (FeedbackEntry { custom_tags: r.custom_tags, ..self }),
    {
        let mut entry = self;
        entry.custom_tags.push(tag);
        entry
    }
}

impl Clone for FeedbackEntry {
    /// A copy that says the same.
    fn clone(&self) -> (r: FeedbackEntry)
        ensures
            r.same(self),
    {
        FeedbackEntry {
            feedback_id: self.feedback_id.clone(),
            session_id: self.session_id.clone(),
            user_id: clone_optional_text(&self.user_id),
            related_trace_id: clone_optional_text(&self.related_trace_id),
            related_log_id: clone_optional_text(&self.related_log_id),
            timestamp: self.timestamp,
            source: self.source,
            user_rating_stars: self.user_rating_stars,
            correction_suggestion_text: clone_optional_text(&self.correction_suggestion_text),
            is_error_report: self.is_error_report,
            custom_tags: clone_strings(&self.custom_tags),
            feedback_data: self.feedback_data.clone(),
        }
    }
}

/// Whether every entry of `found` is a copy of the entry that the table
/// keeps under its identity, and no identity occurs twice.
pub open spec fn copies_of(found: Seq<FeedbackEntry>, table: Map<Seq<char>, FeedbackEntry>) -> bool {
    &&& forall|i: int|
        0 <= i < found.len() ==> table.contains_key((#[trigger] found[i]).feedback_id@)
            && found[i].same(&table[found[i].feedback_id@])
    &&& forall|i: int, j: int|
        0 <= i < j < found.len() ==> found[i].feedback_id@ != found[j].feedback_id@
}

/// Whether an identity is among those of `found`.
pub open spec fn names(found: Seq<FeedbackEntry>, id: Seq<char>) -> bool {
    exists|i: int| 0 <= i < found.len() && found[i].feedback_id@ == id
}

/// Whether the entries stand newest first.
pub open spec fn newest_first(found: Seq<FeedbackEntry>) -> bool {
    forall|i: int, j: int| 0 <= i < j < found.len() ==> found[j].timestamp.le(found[i].timestamp)
}

/// Whether `found` is what a query for a session returns: copies of entries of
/// that session, newest first; all of them where no limit cuts the list, and
/// else the newest ones up to the limit.
pub open spec fn session_answer(
    table: Map<Seq<char>, FeedbackEntry>,
    session_id: Seq<char>,
    limit: Option<usize>,
    found: Seq<FeedbackEntry>,
) -> bool {
    &&& copies_of(found, table)
    &&& forall|i: int| 0 <= i < found.len() ==> (#[trigger] found[i]).session_id@ == session_id
    &&& newest_first(found)
    &&& limit matches Some(most) ==> found.len() <= most
    &&& forall|id: Seq<char>|
        table.contains_key(id) && table[id].session_id@ == session_id && !names(found, id) ==> {
            &&& limit matches Some(most) && found.len() == most
            &&& forall|i: int|
                0 <= i < found.len() ==> table[id].timestamp.le((#[trigger] found[i]).timestamp)
        }
}

/// Whether `found` is what a query for a trace returns: copies of exactly the
/// entries that are linked to the trace.
pub open spec fn trace_answer(
    table: Map<Seq<char>, FeedbackEntry>,
    trace_id: Seq<char>,
    found: Seq<FeedbackEntry>,
) -> bool {
    &&& copies_of(found, table)
    &&& forall|i: int|
        0 <= i < found.len() ==> text_view((#[trigger] found[i]).related_trace_id)
            == Some(trace_id)
    &&& forall|id: Seq<char>|
        table.contains_key(id) && text_view(table[id].related_trace_id) == Some(
            trace_id,
        ) ==> names(found, id)
}

/// What a store of feedback offers, whatever keeps the data.
pub trait FeedbackStoreProvider {
    /// The entries under their identities.
    spec fn entries(&self) -> Map<Seq<char>, FeedbackEntry>;

    /// The store's own validity.
    spec fn well_formed(&self) -> bool;

    /// Keeps an entry under its identity, in the place of any earlier one.
    fn store_feedback(&mut self, entry: FeedbackEntry) -> (r: Result<(), KbError>)
        requires
            old(self).well_formed(),
        ensures
            final(self).well_formed(),
            r is Ok ==> final(self).entries() == old(self).entries().insert(
                entry.feedback_id@,
                entry,
            ),
            r is Err ==> final(self).entries() == old(self).entries(),
    ;

    /// The entry under `feedback_id`, if there is one.
    fn get_feedback_by_id(&self, feedback_id: &str) -> (r: Result<Option<FeedbackEntry>, KbError>)
        requires
            self.well_formed(),
        ensures
            r matches Ok(Some(entry)) ==> self.entries().contains_key(feedback_id@) && entry.same(
                &self.entries()[feedback_id@],
            ),
            r matches Ok(None) ==> !self.entries().contains_key(feedback_id@),
    ;

    /// The entries of a session, newest first, at most `limit` of them.
    fn get_feedback_for_session(&self, session_id: &str, limit: Option<usize>) -> (r: Result<
        Vec<FeedbackEntry>,
        KbError,
    >)
        requires
            self.well_formed(),
        ensures
            r matches Ok(found) ==> session_answer(self.entries(), session_id@, limit, found@),
    ;

    /// The entries that are linked to a reasoning trace.
    fn get_feedback_by_trace_id(&self, trace_id: &str) -> (r: Result<Vec<FeedbackEntry>, KbError>)
        requires
            self.well_formed(),
        ensures
            r matches Ok(found) ==> trace_answer(self.entries(), trace_id@, found@),
    ;
}

/// A store that keeps the feedback in memory.
pub struct InMemoryFeedbackStore {
    feedback_entries: StringHashMap<FeedbackEntry>,
    /// The identities of the entries, in the order in which they first came.
    ids: Vec<String>,
}

impl InMemoryFeedbackStore {
    /// The table of entries.
    pub closed spec fn table(&self) -> Map<Seq<char>, FeedbackEntry> {
        self.feedback_entries@
    }

    /// The list of identities names exactly the entries, each once.
    pub closed spec fn ids_exact(&self) -> bool {
        &&& distinct(self.ids.deep_view())
        &&& forall|id: Seq<char>|
            self.feedback_entries@.contains_key(id) <==> self.ids.deep_view().contains(id)
    }

    /// A store without entries.
    pub fn new() -> (r: InMemoryFeedbackStore)
        ensures
            r.well_formed(),
            r.entries() == Map::<Seq<char>, FeedbackEntry>::empty(),
    {
        InMemoryFeedbackStore { feedback_entries: StringHashMap::new(), ids: Vec::new() }
    }

    /// Where a new entry belongs in a list that stands newest first: behind
    /// every entry that is as new or newer.
    fn place_for(sorted: &Vec<FeedbackEntry>, timestamp: Timestamp) -> (p: usize)
        requires
            newest_first(sorted@),
        ensures
            p <= sorted@.len(),
            forall|i: int| 0 <= i < p ==> timestamp.le(sorted@[i].timestamp),
            forall|i: int| p <= i < sorted@.len() ==> sorted@[i].timestamp.le(timestamp),
    {
        let mut p: usize = 0;
        while p < sorted.len() && timestamp.not_after(&sorted[p].timestamp)
            invariant
                p <= sorted@.len(),
                forall|i: int| 0 <= i < p ==> timestamp.le(sorted@[i].timestamp),
            decreases sorted@.len() - p,
        {
            p += 1;
        }
        proof {
            if p < sorted@.len() {
                assert forall|i: int| p <= i < sorted@.len() implies sorted@[i].timestamp.le(
                    timestamp,
                ) by {
                    if i > p {
                        assert(sorted@[i].timestamp.le(sorted@[p as int].timestamp));
                    }
                }
            }
        }
        p
    }
}

impl Default for InMemoryFeedbackStore {
    fn default() -> (r: InMemoryFeedbackStore)
        ensures
            r.well_formed(),
            r.entries() == Map::<Seq<char>, FeedbackEntry>::empty(),
    {
        InMemoryFeedbackStore::new()
    }
}

impl FeedbackStoreProvider for InMemoryFeedbackStore {
    open spec fn entries(&self) -> Map<Seq<char>, FeedbackEntry> {
        self.table()
    }

    open spec fn well_formed(&self) -> bool {
        &&& self.ids_exact()
        &&& forall|id: Seq<char>| #[trigger]
            self.table().contains_key(id) ==> self.table()[id].feedback_id@ == id
    }

    /// Keeps an entry. It never fails.
    fn store_feedback(&mut self, entry: FeedbackEntry) -> (r: Result<(), KbError>)
        ensures
            r is Ok,
    {
        let ghost id = entry.feedback_id@;
        let ghost l0 = self.ids.deep_view();
        if !self.feedback_entries.contains_key(entry.feedback_id.as_str()) {
            self.ids.push(entry.feedback_id.clone());
            proof {
                let l1 = self.ids.deep_view();
                assert(l1 =~= l0.push(id));
                assert forall|a: int, b: int| 0 <= a < b < l1.len() implies l1[a] != l1[b] by {
                    if b == l0.len() {
                        assert(l0.contains(l0[a]));
                    } else {
                        assert(l0[a] != l0[b]);
                    }
                }
                assert forall|s: Seq<char>| l1.contains(s) <==> l0.contains(s) || s == id by {
                    if l0.contains(s) {
                        let j = choose|j: int| 0 <= j < l0.len() && l0[j] == s;
                        assert(l1[j] == s);
                    }
                    if s == id {
                        assert(l1[l0.len() as int] == s);
                    }
                    if l1.contains(s) {
                        let j = choose|j: int| 0 <= j < l1.len() && l1[j] == s;
                        if j < l0.len() {
                            assert(l0[j] == s);
                        }
                    }
                }
            }
        }
        let ghost l1 = self.ids.deep_view();
        let ghost t0 = self.feedback_entries@;
        assert(forall|s: Seq<char>| l1.contains(s) <==> t0.contains_key(s) || s == id);
        self.feedback_entries.insert(entry.feedback_id.clone(), entry);
        proof {
            let t1 = self.feedback_entries@;
            assert forall|s: Seq<char>| t1.contains_key(s) <==> l1.contains(s) by {}
            assert(distinct(l1));
            assert(self.ids_exact());
            assert forall|s: Seq<char>| #[trigger]
                self.table().contains_key(s) implies self.table()[s].feedback_id@ == s by {
                if s != id {
                    assert(old(self).table().contains_key(s));
                }
            }
        }
        Ok(())
    }

    /// The entry under `feedback_id`. It never fails.
    fn get_feedback_by_id(&self, feedback_id: &str) -> (r: Result<Option<FeedbackEntry>, KbError>)
        ensures
            r is Ok,
    {
        match self.feedback_entries.get(feedback_id) {
            Some(entry) => Ok(Some(entry.clone())),
            None => Ok(None),
        }
    }

    /// The entries of a session. It never fails.
    fn get_feedback_for_session(&self, session_id: &str, limit: Option<usize>) -> (r: Result<
        Vec<FeedbackEntry>,
        KbError,
    >)
        ensures
            r is Ok,
    {
        let ghost table = self.table();
        let ghost order = self.ids.deep_view();
        let ghost session = session_id@;
        let mut sorted: Vec<FeedbackEntry> = Vec::new();
        let mut i: usize = 0;
        while i < self.ids.len()
            invariant
                i <= self.ids@.len(),
                self.well_formed(),
                table == self.table(),
                order == self.ids.deep_view(),
                session == session_id@,
                copies_of(sorted@, table),
                newest_first(sorted@),
                forall|k: int|
                    0 <= k < sorted@.len() ==> (#[trigger] sorted@[k]).session_id@ == session
                        && exists|j: int| 0 <= j < i && order[j] == sorted@[k].feedback_id@,
                forall|j: int|
                    0 <= j < i && table[order[j]].session_id@ == session ==> names(
                        sorted@,
                        #[trigger] order[j],
                    ),
            decreases self.ids@.len() - i,
        {
            let ghost id = order[i as int];
            let ghost prev = sorted@;
            proof {
                assert(order.contains(id));
                assert(table.contains_key(id));
            }
            match self.feedback_entries.get(self.ids[i].as_str()) {
                Some(entry) => {
                    if str_eq(entry.session_id.as_str(), session_id) {
                        let p = InMemoryFeedbackStore::place_for(&sorted, entry.timestamp);
                        let copy = entry.clone();
                        sorted.insert(p, copy);
                        proof {
                            let next = sorted@;
                            assert(next == prev.insert(p as int, copy));
                            assert(copy.feedback_id@ == id);
                            assert forall|k: int| 0 <= k < next.len() implies ({
                                &&& table.contains_key((#[trigger] next[k]).feedback_id@)
                                &&& next[k].same(&table[next[k].feedback_id@])
                                &&& next[k].session_id@ == session
                                &&& exists|j: int|
                                    0 <= j < i + 1 && order[j] == next[k].feedback_id@
                            }) by {
                                if k < p {
                                    assert(next[k] == prev[k]);
                                    let j = choose|j: int|
                                        0 <= j < i && order[j] == prev[k].feedback_id@;
                                    assert(0 <= j < i + 1 && order[j] == next[k].feedback_id@);
                                } else if k == p {
                                    assert(0 <= i < i + 1 && order[i as int]
                                        == next[k].feedback_id@);
                                } else {
                                    assert(next[k] == prev[k - 1]);
                                    let j = choose|j: int|
                                        0 <= j < i && order[j] == prev[k - 1].feedback_id@;
                                    assert(0 <= j < i + 1 && order[j] == next[k].feedback_id@);
                                }
                            }
                            assert forall|a: int, b: int|
                                0 <= a < b < next.len() implies next[a].feedback_id@
                                != next[b].feedback_id@ && next[b].timestamp.le(
                                next[a].timestamp,
                            ) by {
                                let x = if a < p { a } else { a - 1 };
                                let y = if b < p { b } else { b - 1 };
                                if a == p {
                                    assert(next[b] == prev[y]);
                                    let j = choose|j: int|
                                        0 <= j < i && order[j] == prev[y].feedback_id@;
                                    assert(order[j] != order[i as int]);
                                } else if b == p {
                                    assert(next[a] == prev[x]);
                                    let j = choose|j: int|
                                        0 <= j < i && order[j] == prev[x].feedback_id@;
                                    assert(order[j] != order[i as int]);
                                } else {
                                    assert(next[a] == prev[x]);
                                    assert(next[b] == prev[y]);
                                    assert(prev[x].feedback_id@ != prev[y].feedback_id@);
                                }
                            }
                            assert forall|j: int|
                                0 <= j < i + 1 && table[order[j]].session_id@
                                    == session implies names(next, #[trigger] order[j]) by {
                                if j < i {
                                    assert(names(prev, order[j]));
                                    let k = choose|k: int|
                                        0 <= k < prev.len() && prev[k].feedback_id@ == order[j];
                                    let k2 = if k < p { k } else { k + 1 };
                                    assert(next[k2] == prev[k]);
                                } else {
                                    assert(next[p as int].feedback_id@ == order[j]);
                                }
                            }
                        }
                    } else {
                        assert(table[id].session_id@ != session);
                    }
                },
                None => {},
            }
            i += 1;
        }
        let ghost full = sorted@;
        proof {
            assert forall|id: Seq<char>|
                table.contains_key(id) && table[id].session_id@ == session implies names(
                full,
                id,
            ) by {
                assert(order.contains(id));
                let j = choose|j: int| 0 <= j < order.len() && order[j] == id;
                assert(names(full, order[j]));
            }
        }
        match limit {
            Some(most) => {
                sorted.truncate(most);
                proof {
                    let cut = sorted@;
                    if most < full.len() {
                        assert(cut == full.subrange(0, most as int));
                        assert forall|id: Seq<char>|
                            table.contains_key(id) && table[id].session_id@ == session && !names(
                                cut,
                                id,
                            ) implies forall|k: int|
                            0 <= k < cut.len() ==> table[id].timestamp.le(
                                (#[trigger] cut[k]).timestamp,
                            ) by {
                            assert(names(full, id));
                            let x = choose|x: int|
                                0 <= x < full.len() && full[x].feedback_id@ == id;
                            if x < most {
                                assert(cut[x].feedback_id@ == id);
                            }
                            assert forall|k: int| 0 <= k < cut.len() implies table[id].timestamp.le(
                                (#[trigger] cut[k]).timestamp,
                            ) by {
                                assert(cut[k] == full[k]);
                                assert(full[x].timestamp.le(full[k].timestamp));
                            }
                        }
                    } else {
                        assert(cut == full);
                    }
                }
            },
            None => {},
        }
        Ok(sorted)
    }

    /// The entries that are linked to a trace. It never fails.
    fn get_feedback_by_trace_id(&self, trace_id: &str) -> (r: Result<Vec<FeedbackEntry>, KbError>)
        ensures
            r is Ok,
    {
        let ghost table = self.table();
        let ghost order = self.ids.deep_view();
        let ghost wanted = Some(trace_id@);
        let mut found: Vec<FeedbackEntry> = Vec::new();
        let mut i: usize = 0;
        while i < self.ids.len()
            invariant
                i <= self.ids@.len(),
                self.well_formed(),
                table == self.table(),
                order == self.ids.deep_view(),
                wanted == Some(trace_id@),
                copies_of(found@, table),
                forall|k: int|
                    0 <= k < found@.len() ==> text_view(
                        (#[trigger] found@[k]).related_trace_id,
                    ) == wanted && exists|j: int|
                        0 <= j < i && order[j] == found@[k].feedback_id@,
                forall|j: int|
                    0 <= j < i && text_view(table[order[j]].related_trace_id)
                        == wanted ==> names(found@, #[trigger] order[j]),
            decreases self.ids@.len() - i,
        {
            let ghost id = order[i as int];
            let ghost prev = found@;
            proof {
                assert(order.contains(id));
                assert(table.contains_key(id));
            }
            match self.feedback_entries.get(self.ids[i].as_str()) {
                Some(entry) => {
                    let linked = match &entry.related_trace_id {
                        Some(linked_id) => str_eq(linked_id.as_str(), trace_id),
                        None => false,
                    };
                    if linked {
                        let copy = entry.clone();
                        found.push(copy);
                        proof {
                            let next = found@;
                            let last = prev.len() as int;
                            assert(next[last].feedback_id@ == id);
                            assert forall|k: int| 0 <= k < next.len() implies ({
                                &&& table.contains_key((#[trigger] next[k]).feedback_id@)
                                &&& next[k].same(&table[next[k].feedback_id@])
                                &&& text_view(next[k].related_trace_id)
                                    == wanted
                                &&& exists|j: int|
                                    0 <= j < i + 1 && order[j] == next[k].feedback_id@
                            }) by {
                                if k < last {
                                    assert(next[k] == prev[k]);
                                    let j = choose|j: int|
                                        0 <= j < i && order[j] == prev[k].feedback_id@;
                                    assert(0 <= j < i + 1 && order[j] == next[k].feedback_id@);
                                } else {
                                    assert(0 <= i < i + 1 && order[i as int]
                                        == next[k].feedback_id@);
                                }
                            }
                            assert forall|a: int, b: int|
                                0 <= a < b < next.len() implies next[a].feedback_id@
                                != next[b].feedback_id@ by {
                                assert(next[a] == prev[a]);
                                if b == last {
                                    let j = choose|j: int|
                                        0 <= j < i && order[j] == prev[a].feedback_id@;
                                    assert(order[j] != order[i as int]);
                                } else {
                                    assert(next[b] == prev[b]);
                                }
                            }
                            assert forall|j: int|
                                0 <= j < i + 1 && text_view(
                                    table[order[j]].related_trace_id,
                                ) == wanted implies names(next, #[trigger] order[j]) by {
                                if j < i {
                                    assert(names(prev, order[j]));
                                    let k = choose|k: int|
                                        0 <= k < prev.len() && prev[k].feedback_id@ == order[j];
                                    assert(next[k] == prev[k]);
                                } else {
                                    assert(next[last].feedback_id@ == order[j]);
                                }
                            }
                        }
                    }
                },
                None => {},
            }
            i += 1;
        }
        proof {
            assert forall|id: Seq<char>|
                table.contains_key(id) && text_view(table[id].related_trace_id)
                    == wanted implies names(found@, id) by {
                assert(order.contains(id));
                let j = choose|j: int| 0 <= j < order.len() && order[j] == id;
                assert(names(found@, order[j]));
            }
        }
        Ok(found)
    }
}

} // verus!
