//! The record store itself: a greeting, a keyed collection of reports, and
//! the owning identity, together with the laws the operations obey.
//!
//! The reports sit in a vector whose entries carry pairwise distinct ids;
//! contracts speak of the map from id to record that the vector denotes.

use vstd::prelude::*;

use crate::report::Report;
use crate::report::ReportView;
use crate::report::StoreError;

verus! {

/// The keyed reading of a sequence of reports: each entry is filed under its
/// own id, a later entry overriding an earlier one with the same id.
spec fn report_map(s: Seq<Report>) -> Map<int, ReportView>
    decreases s.len(),
{
    if s.len() == 0 {
        Map::empty()
    } else {
        report_map(s.drop_last()).insert(s.last()@.id, s.last()@)
    }
}

/// No two entries of the sequence carry the same id.
spec fn unique_ids(s: Seq<Report>) -> bool {
    forall|i: int, j: int| #![trigger s[i], s[j]]
        0 <= i < s.len() && 0 <= j < s.len() && i != j ==> s[i].id != s[j].id
}

/// An id is a key of the map exactly when some entry carries it.
proof fn lemma_report_map_contains(s: Seq<Report>, k: int)
    ensures
        report_map(s).contains_key(k) <==> (exists|i: int| 0 <= i < s.len() && s[i].id == k),
    decreases s.len(),
{
    if s.len() > 0 {
        let d = s.drop_last();
        lemma_report_map_contains(d, k);
        if report_map(s).contains_key(k) {
            if s.last()@.id == k {
                assert(s[s.len() - 1].id == k);
            } else {
                let i = choose|i: int| 0 <= i < d.len() && d[i].id == k;
                assert(s[i].id == k);
            }
        }
        if exists|i: int| 0 <= i < s.len() && s[i].id == k {
            let i = choose|i: int| 0 <= i < s.len() && s[i].id == k;
            if i < s.len() - 1 {
                assert(d[i].id == k);
            }
        }
    }
}

/// Under pairwise distinct ids, the map files each entry under its own id.
proof fn lemma_report_map_index(s: Seq<Report>, i: int)
    requires
        unique_ids(s),
        0 <= i < s.len(),
    ensures
        report_map(s).contains_key(s[i].id as int),
        report_map(s)[s[i].id as int] == s[i]@,
    decreases s.len(),
{
    let d = s.drop_last();
    if i < s.len() - 1 {
        assert(unique_ids(d)) by {
            assert forall|a: int, b: int| #![trigger d[a], d[b]]
                0 <= a < d.len() && 0 <= b < d.len() && a != b implies d[a].id != d[b].id by {
                assert(d[a] == s[a]);
                assert(d[b] == s[b]);
            }
        }
        lemma_report_map_index(d, i);
        assert(s[i].id != s[s.len() - 1].id);
    }
}

/// Under pairwise distinct ids, the map holds exactly one entry per element.
proof fn lemma_report_map_len(s: Seq<Report>)
    requires
        unique_ids(s),
    ensures
        report_map(s).dom().finite(),
        report_map(s).len() == s.len(),
    decreases s.len(),
{
    if s.len() > 0 {
        let d = s.drop_last();
        assert(unique_ids(d)) by {
            assert forall|a: int, b: int| #![trigger d[a], d[b]]
                0 <= a < d.len() && 0 <= b < d.len() && a != b implies d[a].id != d[b].id by {
                assert(d[a] == s[a]);
                assert(d[b] == s[b]);
            }
        }
        lemma_report_map_len(d);
        lemma_report_map_contains(d, s.last()@.id);
        assert(!report_map(d).contains_key(s.last()@.id)) by {
            if exists|i: int| 0 <= i < d.len() && d[i].id == s.last()@.id {
                let i = choose|i: int| 0 <= i < d.len() && d[i].id == s.last()@.id;
                assert(s[i].id == s[s.len() - 1].id);
            }
        }
    }
}

/// Appending an entry inserts it into the map under its id.
proof fn lemma_report_map_push(s: Seq<Report>, r: Report)
    ensures
        report_map(s.push(r)) == report_map(s).insert(r@.id, r@),
{
    assert(s.push(r).drop_last() =~= s);
    assert(s.push(r).last() == r);
}

/// Overwriting the entry at a position with a record of the same id inserts
/// that record into the map under the shared id.
proof fn lemma_report_map_update(s: Seq<Report>, i: int, r: Report)
    requires
        unique_ids(s),
        0 <= i < s.len(),
        r.id == s[i].id,
    ensures
        report_map(s.update(i, r)) == report_map(s).insert(r@.id, r@),
    decreases s.len(),
{
    let d = s.drop_last();
    let u = s.update(i, r);
    if i == s.len() - 1 {
        assert(u.drop_last() =~= d);
        assert(u.last() == r);
        assert(report_map(u) =~= report_map(s).insert(r@.id, r@));
    } else {
        assert(unique_ids(d)) by {
            assert forall|a: int, b: int| #![trigger d[a], d[b]]
                0 <= a < d.len() && 0 <= b < d.len() && a != b implies d[a].id != d[b].id by {
                assert(d[a] == s[a]);
                assert(d[b] == s[b]);
            }
        }
        assert(u.drop_last() =~= d.update(i, r));
        assert(u.last() == s.last());
        lemma_report_map_update(d, i, r);
        assert(s[i].id != s[s.len() - 1].id);
        assert(report_map(u) =~= report_map(s).insert(r@.id, r@));
    }
}

/// Removing the entry at a position removes its id from the map.
proof fn lemma_report_map_remove(s: Seq<Report>, i: int)
    requires
        unique_ids(s),
        0 <= i < s.len(),
    ensures
        report_map(s.remove(i)) == report_map(s).remove(s[i].id as int),
    decreases s.len(),
{
    let d = s.drop_last();
    let u = s.remove(i);
    if i == s.len() - 1 {
        assert(u =~= d);
        lemma_report_map_contains(d, s[i].id as int);
        assert(!report_map(d).contains_key(s[i].id as int)) by {
            if exists|j: int| 0 <= j < d.len() && d[j].id == s[i].id {
                let j = choose|j: int| 0 <= j < d.len() && d[j].id == s[i].id;
                assert(s[j].id == s[i].id);
            }
        }
        assert(report_map(u) =~= report_map(s).remove(s[i].id as int));
    } else {
        assert(unique_ids(d)) by {
            assert forall|a: int, b: int| #![trigger d[a], d[b]]
                0 <= a < d.len() && 0 <= b < d.len() && a != b implies d[a].id != d[b].id by {
                assert(d[a] == s[a]);
                assert(d[b] == s[b]);
            }
        }
        assert(u.drop_last() =~= d.remove(i));
        assert(u.last() == s.last());
        lemma_report_map_remove(d, i);
        assert(s[i].id != s[s.len() - 1].id);
        assert(report_map(u) =~= report_map(s).remove(s[i].id as int));
    }
}

/// Every id the map holds keys a record whose own id field equals it.
proof fn lemma_report_map_keys_match(s: Seq<Report>)
    ensures
        forall|k: int| #[trigger] report_map(s).contains_key(k) ==> report_map(s)[k].id == k,
    decreases s.len(),
{
    if s.len() > 0 {
        let d = s.drop_last();
        lemma_report_map_keys_match(d);
        assert forall|k: int| #[trigger] report_map(s).contains_key(k)
            implies report_map(s)[k].id == k by {
            if k != s.last()@.id {
                assert(report_map(d).contains_key(k));
            }
        }
    }
}

/// Overwriting an entry with a record of the same id keeps ids distinct.
proof fn lemma_unique_update(s: Seq<Report>, i: int, r: Report)
    requires
        unique_ids(s),
        0 <= i < s.len(),
        r.id == s[i].id,
    ensures
        unique_ids(s.update(i, r)),
{
    let u = s.update(i, r);
    assert forall|a: int, b: int| #![trigger u[a], u[b]]
        0 <= a < u.len() && 0 <= b < u.len() && a != b implies u[a].id != u[b].id by {
        assert(u[a].id == s[a].id);
        assert(u[b].id == s[b].id);
    }
}

/// Appending a record whose id no entry carries keeps ids distinct.
proof fn lemma_unique_push(s: Seq<Report>, r: Report)
    requires
        unique_ids(s),
        forall|j: int| 0 <= j < s.len() ==> s[j].id != r.id,
    ensures
        unique_ids(s.push(r)),
{
    let u = s.push(r);
    assert forall|a: int, b: int| #![trigger u[a], u[b]]
        0 <= a < u.len() && 0 <= b < u.len() && a != b implies u[a].id != u[b].id by {
        if a < s.len() {
            assert(u[a] == s[a]);
        }
        if b < s.len() {
            assert(u[b] == s[b]);
        }
    }
}

/// Removing an entry keeps ids distinct.
proof fn lemma_unique_remove(s: Seq<Report>, i: int)
    requires
        unique_ids(s),
        0 <= i < s.len(),
    ensures
        unique_ids(s.remove(i)),
{
    let u = s.remove(i);
    assert forall|a: int, b: int| #![trigger u[a], u[b]]
        0 <= a < u.len() && 0 <= b < u.len() && a != b implies u[a].id != u[b].id by {
        let sa: int = if a < i { a } else { a + 1 };
        let sb: int = if b < i { b } else { b + 1 };
        assert(u[a] == s[sa]);
        assert(u[b] == s[sb]);
    }
}

/// The greeting every fresh store starts with.
pub open spec fn default_greeting() -> Seq<char> {
    "Hello"@
}

/// The record store: the current greeting, the stored reports, and the
/// identity of the owner, fixed at construction.
pub struct Contract {
    message: String,
    reports: Vec<Report>,
    owner: String,
}

/// The mathematical content of a store: the greeting, the map from id to
/// stored record, and the owner's identity.
pub struct ContractView {
    pub greeting: Seq<char>,
    pub reports: Map<int, ReportView>,
    pub owner: Seq<char>,
}

impl View for Contract {
    type V = ContractView;

    closed spec fn view(&self) -> ContractView {
        ContractView {
            greeting: self.message@,
            reports: report_map(self.reports@),
            owner: self.owner@,
        }
    }
}

impl Contract {
    /// The store keeps one record per id: its entries carry distinct ids.
    pub closed spec fn wf(self) -> bool {
        unique_ids(self.reports@)
    }

    /// A fresh store: the default greeting, no reports, owned by the
    /// constructing identity.
    pub fn new(owner: String) -> (store: Contract)
        ensures
            store.wf(),
            store@.greeting == default_greeting(),
            store@.reports == Map::<int, ReportView>::empty(),
            store@.owner == owner@,
    {
        Contract { message: "Hello".to_owned(), reports: Vec::new(), owner }
    }

    /// The current greeting.
    pub fn get_greeting(&self) -> (greeting: String)
        ensures
            greeting@ == self@.greeting,
    {
        self.message.clone()
    }

    /// Replace the greeting; any caller may do so, and nothing else changes.
    pub fn set_greeting(&mut self, message: String)
        ensures
            final(self)@.greeting == message@,
            final(self)@.reports == old(self)@.reports,
            final(self)@.owner == old(self)@.owner,
            final(self).wf() <==> old(self).wf(),
    {
        self.message = message;
    }

    /// The position in the backing vector of the report carrying `id`.
    fn find_index(&self, id: usize) -> (position: Option<usize>)
        ensures
            position matches Some(i) ==> i < self.reports@.len() && self.reports@[i as int].id
                == id,
            position is None ==> forall|j: int|
                0 <= j < self.reports@.len() ==> self.reports@[j].id != id,
    {
        let n = self.reports.len();
        let mut i: usize = 0;
        while i < n
            invariant
                i <= n,
                n == self.reports@.len(),
                forall|j: int| 0 <= j < i ==> self.reports@[j].id != id,
            decreases n - i,
        {
            if self.reports[i].id == id {
                return Some(i);
            }
            i = i + 1;
        }
        None
    }

    /// File `report` under its id, overwriting any record already there.
    fn upsert(&mut self, report: Report)
        requires
            old(self).wf(),
        ensures
            final(self).wf(),
            final(self)@.reports == old(self)@.reports.insert(report@.id, report@),
            final(self)@.greeting == old(self)@.greeting,
            final(self)@.owner == old(self)@.owner,
    {
        match self.find_index(report.id) {
            Some(i) => {
                proof {
                    lemma_report_map_update(self.reports@, i as int, report);
                    lemma_unique_update(self.reports@, i as int, report);
                }
                self.reports.set(i, report);
            },
            None => {
                proof {
                    lemma_report_map_push(self.reports@, report);
                    lemma_unique_push(self.reports@, report);
                }
                self.reports.push(report);
            },
        }
    }

    /// Store a new report under the size-derived id — the number of reports
    /// on hand before the call — with the caller as author, and return that
    /// id. When the store already holds that id (possible once reports have
    /// been deleted), the record there is overwritten.
    pub fn add_report(
        &mut self,
        caller: String,
        done_today: String,
        goal_tomorrow: String,
        blocker: String,
        word_appreciation: String,
    ) -> (id: usize)
        requires
            old(self).wf(),
        ensures
            final(self).wf(),
            id == old(self)@.reports.len(),
            final(self)@.reports == old(self)@.reports.insert(
                id as int,
                (ReportView {
                    id: id as int,
                    author: caller@,
                    done_today: done_today@,
                    goal_tomorrow: goal_tomorrow@,
                    blocker: blocker@,
                    word_appreciation: word_appreciation@,
                }),
            ),
            final(self)@.greeting == old(self)@.greeting,
            final(self)@.owner == old(self)@.owner,
    {
        proof {
            lemma_report_map_len(self.reports@);
        }
        let id = self.reports.len();
        let report = Report {
            id,
            author: caller,
            done_today,
            goal_tomorrow,
            blocker,
            word_appreciation,
        };
        self.upsert(report);
        id
    }

    /// Look up the report stored under `id`: a copy of the record, or
    /// `NotFound` exactly when no record carries that id.
    pub fn get_report(&self, id: usize) -> (result: Result<Report, StoreError>)
        requires
            self.wf(),
        ensures
            self@.reports.contains_key(id as int) ==> (result matches Ok(report) && report@
                == self@.reports[id as int]),
            !self@.reports.contains_key(id as int) ==> result == Result::<
                Report,
                StoreError,
            >::Err(StoreError::NotFound),
    {
        match self.find_index(id) {
            Some(i) => {
                proof {
                    lemma_report_map_index(self.reports@, i as int);
                }
                Ok(self.reports[i].duplicate())
            },
            None => {
                proof {
                    lemma_report_map_contains(self.reports@, id as int);
                }
                Err(StoreError::NotFound)
            },
        }
    }

    /// Write the four fields under `id`, inserting a record there when none
    /// exists; the stored author becomes the caller of this update, whoever
    /// created the record. Never fails.
    pub fn update_report(
        &mut self,
        caller: String,
        id: usize,
        done_today: String,
        goal_tomorrow: String,
        blocker: String,
        word_appreciation: String,
    )
        requires
            old(self).wf(),
        ensures
            final(self).wf(),
            final(self)@.reports == old(self)@.reports.insert(
                id as int,
                (ReportView {
                    id: id as int,
                    author: caller@,
                    done_today: done_today@,
                    goal_tomorrow: goal_tomorrow@,
                    blocker: blocker@,
                    word_appreciation: word_appreciation@,
                }),
            ),
            final(self)@.greeting == old(self)@.greeting,
            final(self)@.owner == old(self)@.owner,
    {
        let report = Report {
            id,
            author: caller,
            done_today,
            goal_tomorrow,
            blocker,
            word_appreciation,
        };
        self.upsert(report);
    }

    /// Remove the report stored under `id`, a no-op when none exists there.
    /// Only the store's owner may delete: any other caller is refused with
    /// `PermissionDenied` and the store is left exactly as it was.
    pub fn delete_report(&mut self, caller: String, id: usize) -> (result: Result<
        (),
        StoreError,
    >)
        requires
            old(self).wf(),
        ensures
            final(self).wf(),
            caller@ == old(self)@.owner ==> result == Result::<(), StoreError>::Ok(())
                && final(self)@.reports == old(self)@.reports.remove(id as int)
                && final(self)@.greeting == old(self)@.greeting
                && final(self)@.owner == old(self)@.owner,
            caller@ != old(self)@.owner ==> result == Result::<(), StoreError>::Err(
                StoreError::PermissionDenied,
            ) && *final(self) == *old(self),
    {
        if caller == self.owner {
            match self.find_index(id) {
                Some(i) => {
                    proof {
                        lemma_report_map_remove(self.reports@, i as int);
                        lemma_unique_remove(self.reports@, i as int);
                    }
                    let _ = self.reports.remove(i);
                },
                None => {
                    proof {
                        lemma_report_map_contains(self.reports@, id as int);
                        assert(self@.reports =~= self@.reports.remove(id as int));
                    }
                },
            }
            Ok(())
        } else {
            Err(StoreError::PermissionDenied)
        }
    }

    /// How many reports the store holds.
    pub fn report_count(&self) -> (count: usize)
        requires
            self.wf(),
        ensures
            count == self@.reports.len(),
    {
        proof {
            lemma_report_map_len(self.reports@);
        }
        self.reports.len()
    }
}

/// The ids on hand are exactly the integers below the count, as holds for a
/// store that has only ever added reports.
pub open spec fn ids_sequential(reports: Map<int, ReportView>) -> bool {
    forall|k: int| #[trigger] reports.contains_key(k) <==> 0 <= k < reports.len()
}

/// Law: while the ids on hand are exactly the integers below the count, an
/// addition assigns an id that no earlier record carried, and the new record
/// is then retrievable under it with the adding caller as its author. After
/// deletions the premise can fail, and the size-derived id can land on a
/// record still on hand, which the addition then overwrites.
pub proof fn lemma_add_report_fresh_id(
    pre: Map<int, ReportView>,
    post: Map<int, ReportView>,
    id: int,
    report: ReportView,
)
    requires
        ids_sequential(pre),
        id == pre.len(),
        report.id == id,
        post == pre.insert(id, report),
    ensures
        !pre.contains_key(id),
        post.contains_key(id),
        post[id] == report,
{
}

/// Law: a record written under an id is exactly what a lookup of that id
/// then yields — for an update, the new field values, with the updating
/// caller as author, whoever created the record.
pub proof fn lemma_update_then_get(
    pre: Map<int, ReportView>,
    post: Map<int, ReportView>,
    id: int,
    report: ReportView,
)
    requires
        pre.contains_key(id),
        report.id == id,
        post == pre.insert(id, report),
    ensures
        post.contains_key(id),
        post[id] == report,
{
}

/// Law: a refused deletion leaves the store as it was, so a record that was
/// on hand stays retrievable, unchanged.
pub proof fn lemma_denied_delete_keeps_report(
    pre: Map<int, ReportView>,
    post: Map<int, ReportView>,
    id: int,
)
    requires
        post == pre,
        pre.contains_key(id),
    ensures
        post.contains_key(id),
        post[id] == pre[id],
{
}

/// Law: once the owner has deleted `id`, no record is on hand under it, so
/// a lookup of that id fails.
pub proof fn lemma_owner_delete_removes(
    pre: Map<int, ReportView>,
    post: Map<int, ReportView>,
    id: int,
)
    requires
        post == pre.remove(id),
    ensures
        !post.contains_key(id),
{
}

/// Law: every id the store holds keys a record whose own id field equals it.
pub proof fn lemma_store_keys_match_ids(store: Contract)
    ensures
        forall|k: int| #[trigger] store@.reports.contains_key(k) ==> store@.reports[k].id == k,
{
    lemma_report_map_keys_match(store.reports@);
}

} // verus!
