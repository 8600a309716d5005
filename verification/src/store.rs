//! The notification queue: an ordered, URL-keyed set of pending
//! notifications, each carrying an `inflight` flag.
//!
//! The queue never holds two rows with the same URL.  A colliding insert
//! succeeds only for the live reasons, which replace the stored row; other
//! collisions are rejected unchanged.  Selection for sending debounces rows
//! younger than fifteen seconds and orders by reason priority (live end,
//! live, new feed, update) and then by insertion order.  Rows marked
//! inflight and left unconfirmed for three minutes are re-armed in bounded
//! batches.

use vstd::prelude::*;
use crate::msg::{Medium, Ping, PingModel, Reason, spec_parse_medium, spec_parse_reason};

verus! {

/// One selected row in its stored, textual shape.
#[derive(Debug)]
pub struct PingRow {
    pub url: String,
    pub time: u64,
    pub reason: String,
    pub medium: String,
}

/// One stored row of the queue.
#[derive(Debug)]
pub struct QueueRow {
    pub url: String,
    pub createdon: u64,
    pub reason: String,
    pub medium: String,
    pub inflight: bool,
}

/// The mathematical shape of a stored row.
pub ghost struct RowModel {
    pub url: Seq<char>,
    pub createdon: u64,
    pub reason: Seq<char>,
    pub medium: Seq<char>,
    pub inflight: bool,
}

impl View for QueueRow {
    type V = RowModel;

    open spec fn view(&self) -> RowModel {
        RowModel {
            url: self.url@,
            createdon: self.createdon,
            reason: self.reason@,
            medium: self.medium@,
            inflight: self.inflight,
        }
    }
}

/// What became of an insert.
#[derive(Clone, Copy, PartialEq, Eq, Structural, Debug)]
pub enum AddOutcome {
    Inserted,
    Upserted,
    DuplicateRejected,
}

/// How many rows one selection hands out at most.
pub const PING_BATCH_SIZE: usize = 1000;

/// How many stale inflight rows one reset re-arms at most.
pub const RESET_BATCH_SIZE: usize = 25;

/// Seconds a row must age before it becomes eligible for sending.
pub const DEBOUNCE_SECONDS: u64 = 15;

/// Seconds after which an unconfirmed inflight row counts as stale.
pub const STALE_SECONDS: u64 = 180;

/// The index of the first row with the given URL, if any.
pub open spec fn spec_find(s: Seq<RowModel>, url: Seq<char>) -> Option<int>
    decreases s.len(),
{
    if s.len() == 0 {
        None
    } else if s[0].url == url {
        Some(0int)
    } else {
        match spec_find(s.drop_first(), url) {
            None => None,
            Some(i) => Some(i + 1),
        }
    }
}

/// No two rows share a URL.
pub open spec fn wf_rows(s: Seq<RowModel>) -> bool {
    forall|i: int, j: int| 0 <= i < j < s.len() ==> s[i].url != s[j].url
}

/// What `spec_find` returns: the first match, or a guarantee that none exists.
pub proof fn lemma_spec_find(s: Seq<RowModel>, url: Seq<char>)
    ensures
        match spec_find(s, url) {
            None => forall|j: int| 0 <= j < s.len() ==> s[j].url != url,
            Some(i) => 0 <= i < s.len() && s[i].url == url && (forall|j: int|
                0 <= j < i ==> s[j].url != url),
        },
    decreases s.len(),
{
    if s.len() > 0 && s[0].url != url {
        lemma_spec_find(s.drop_first(), url);
        match spec_find(s.drop_first(), url) {
            None => {
                assert forall|j: int| 0 <= j < s.len() implies s[j].url != url by {
                    if j > 0 {
                        assert(s.drop_first()[j - 1] == s[j]);
                    }
                }
            },
            Some(i) => {
                assert(s.drop_first()[i] == s[i + 1]);
                assert forall|j: int| 0 <= j < i + 1 implies s[j].url != url by {
                    if j > 0 {
                        assert(s.drop_first()[j - 1] == s[j]);
                    }
                }
            },
        }
    }
}

/// A URL occurs in the queue this many times.
pub open spec fn n_with_url(s: Seq<RowModel>, url: Seq<char>) -> int
    decreases s.len(),
{
    if s.len() == 0 {
        0
    } else {
        n_with_url(s.drop_first(), url) + if s[0].url == url {
            1int
        } else {
            0int
        }
    }
}

proof fn lemma_n_with_url_zero(s: Seq<RowModel>, url: Seq<char>)
    requires
        forall|j: int| 0 <= j < s.len() ==> s[j].url != url,
    ensures
        n_with_url(s, url) == 0,
    decreases s.len(),
{
    if s.len() > 0 {
        assert forall|j: int| 0 <= j < s.drop_first().len() implies s.drop_first()[j].url
            != url by {
            assert(s.drop_first()[j] == s[j + 1]);
        }
        lemma_n_with_url_zero(s.drop_first(), url);
    }
}

/// In a well-formed queue no URL occurs more than once.
pub proof fn lemma_url_occurs_at_most_once(s: Seq<RowModel>, url: Seq<char>)
    requires
        wf_rows(s),
    ensures
        n_with_url(s, url) <= 1,
    decreases s.len(),
{
    if s.len() > 0 {
        let rest = s.drop_first();
        assert forall|i: int, j: int| 0 <= i < j < rest.len() implies rest[i].url
            != rest[j].url by {
            assert(rest[i] == s[i + 1]);
            assert(rest[j] == s[j + 1]);
        }
        if s[0].url == url {
            assert forall|j: int| 0 <= j < rest.len() implies rest[j].url != url by {
                assert(rest[j] == s[j + 1]);
            }
            lemma_n_with_url_zero(rest, url);
        } else {
            lemma_url_occurs_at_most_once(rest, url);
        }
    }
}

/// The stored shape of a fresh notification.
pub open spec fn row_of_ping(p: PingModel) -> RowModel {
    RowModel {
        url: p.url,
        createdon: p.time,
        reason: p.reason.spec_text(),
        medium: p.medium.spec_text(),
        inflight: false,
    }
}

/// How one insert leaves the queue: a fresh URL is appended; a colliding
/// live or live-end notification replaces the stored row; any other
/// collision changes nothing.
pub open spec fn spec_add(s: Seq<RowModel>, p: PingModel) -> Seq<RowModel> {
    match spec_find(s, p.url) {
        None => s.push(row_of_ping(p)),
        Some(i) => if p.reason == Reason::Live || p.reason == Reason::LiveEnd {
            s.update(i, row_of_ping(p))
        } else {
            s
        },
    }
}

/// Sending priority of a stored row: live endings first, then live starts,
/// then new feeds, then plain updates.
pub open spec fn row_rank(r: RowModel) -> int {
    match spec_parse_reason(r.reason) {
        Reason::LiveEnd => 0,
        Reason::Live => 1,
        Reason::NewIRI => 2,
        Reason::Update => 3,
    }
}

/// Whether a selection pass may hand the row out.
pub open spec fn eligible(r: RowModel, with_inflight: bool, now: u64) -> bool {
    (with_inflight || !r.inflight) && r.createdon + DEBOUNCE_SECONDS < now
}

/// The eligible rows of one priority rank, in insertion order.
pub open spec fn sel_rank(s: Seq<RowModel>, with_inflight: bool, now: u64, k: int) -> Seq<
    RowModel,
>
    decreases s.len(),
{
    if s.len() == 0 {
        Seq::empty()
    } else {
        sel_rank(s.drop_last(), with_inflight, now, k) + if eligible(
            s.last(),
            with_inflight,
            now,
        ) && row_rank(s.last()) == k {
            seq![s.last()]
        } else {
            Seq::empty()
        }
    }
}

/// Every eligible row, ordered by priority rank and then insertion order.
pub open spec fn spec_batch_rows(s: Seq<RowModel>, with_inflight: bool, now: u64) -> Seq<
    RowModel,
> {
    sel_rank(s, with_inflight, now, 0) + sel_rank(s, with_inflight, now, 1) + sel_rank(
        s,
        with_inflight,
        now,
        2,
    ) + sel_rank(s, with_inflight, now, 3)
}

/// The notification a stored row decodes to.
pub open spec fn ping_of_row(r: RowModel) -> PingModel {
    PingModel {
        url: r.url,
        time: r.createdon,
        reason: spec_parse_reason(r.reason),
        medium: spec_parse_medium(r.medium),
    }
}

/// The views of a vector of notifications.
pub open spec fn pings_view(v: Seq<Ping>) -> Seq<PingModel> {
    v.map_values(|p: Ping| p@)
}

/// A row sequence decoded to notifications.
pub open spec fn rows_to_pings(s: Seq<RowModel>) -> Seq<PingModel> {
    s.map_values(|r: RowModel| ping_of_row(r))
}

/// What one selection returns: the batch of eligible rows, cut to the batch
/// size, decoded to notifications.
pub open spec fn spec_batch(s: Seq<RowModel>, with_inflight: bool, now: u64) -> Seq<PingModel> {
    let rows = spec_batch_rows(s, with_inflight, now);
    let cut = if rows.len() > PING_BATCH_SIZE {
        rows.take(PING_BATCH_SIZE as int)
    } else {
        rows
    };
    rows_to_pings(cut)
}

proof fn lemma_pings_view_push(v: Seq<Ping>, p: Ping)
    ensures
        pings_view(v.push(p)) =~= pings_view(v).push(p@),
{
}

proof fn lemma_rows_to_pings_push(s: Seq<RowModel>, r: RowModel)
    ensures
        rows_to_pings(s.push(r)) =~= rows_to_pings(s).push(ping_of_row(r)),
{
}

/// How one delete leaves the queue: the row with the URL is removed, and a
/// queue without the URL is unchanged.
pub open spec fn spec_delete_url(s: Seq<RowModel>, url: Seq<char>) -> Seq<RowModel> {
    match spec_find(s, url) {
        None => s,
        Some(i) => s.remove(i),
    }
}

/// An inflight row old enough to count as abandoned.
pub open spec fn stale(r: RowModel, now: u64) -> bool {
    r.inflight && r.createdon + STALE_SECONDS < now
}

/// How many of the first `i` rows are stale.
pub open spec fn n_stale_before(s: Seq<RowModel>, now: u64, i: int) -> int
    decreases i,
{
    if i <= 0 {
        0
    } else {
        n_stale_before(s, now, i - 1) + if stale(s[i - 1], now) {
            1int
        } else {
            0int
        }
    }
}

/// A stale row after its reset: re-armed and re-aged.
pub open spec fn reset_row(r: RowModel, now: u64) -> RowModel {
    RowModel { createdon: now, inflight: false, ..r }
}

/// How one reset pass leaves row `i`.
pub open spec fn spec_reset_result(s: Seq<RowModel>, now: u64, i: int) -> RowModel {
    if stale(s[i], now) && n_stale_before(s, now, i) < RESET_BATCH_SIZE {
        reset_row(s[i], now)
    } else {
        s[i]
    }
}

proof fn lemma_n_stale_monotone(s: Seq<RowModel>, now: u64, i: int, j: int)
    requires
        0 <= i <= j,
    ensures
        n_stale_before(s, now, i) <= n_stale_before(s, now, j),
    decreases j - i,
{
    if i < j {
        lemma_n_stale_monotone(s, now, i, j - 1);
    }
}

/// When no more stale rows exist than one reset pass covers, the pass
/// re-arms every one of them.
pub proof fn lemma_reset_clears_all_stale(s: Seq<RowModel>, now: u64)
    requires
        n_stale_before(s, now, s.len() as int) <= RESET_BATCH_SIZE,
    ensures
        forall|i: int|
            0 <= i < s.len() && stale(s[i], now) ==> !spec_reset_result(s, now, i).inflight,
{
    assert forall|i: int| 0 <= i < s.len() && stale(s[i], now) implies !spec_reset_result(
        s,
        now,
        i,
    ).inflight by {
        assert(n_stale_before(s, now, i + 1) == n_stale_before(s, now, i) + 1);
        lemma_n_stale_monotone(s, now, i + 1, s.len() as int);
    }
}

proof fn lemma_sel_rank_contains(s: Seq<RowModel>, with_inflight: bool, now: u64, k: int, i: int)
    requires
        0 <= i < s.len(),
        eligible(s[i], with_inflight, now),
        row_rank(s[i]) == k,
    ensures
        sel_rank(s, with_inflight, now, k).contains(s[i]),
    decreases s.len(),
{
    if i == s.len() - 1 {
        let sub = sel_rank(s.drop_last(), with_inflight, now, k);
        assert(sel_rank(s, with_inflight, now, k)[sub.len() as int] == s[i]);
    } else {
        assert(s.drop_last()[i] == s[i]);
        lemma_sel_rank_contains(s.drop_last(), with_inflight, now, k, i);
        let sub = sel_rank(s.drop_last(), with_inflight, now, k);
        let w = choose|w: int| 0 <= w < sub.len() && sub[w] == s[i];
        assert(sel_rank(s, with_inflight, now, k)[w] == s[i]);
    }
}

/// Selection leaves no eligible row behind: whenever everything eligible
/// fits in one batch, every eligible row's notification is handed out.
/// Together with the other operations' contracts this keeps every stored
/// notification moving: a handed-out row is marked inflight on a successful
/// send, and an inflight row left unconfirmed past the stale window is
/// re-armed by the reset pass.
pub proof fn lemma_eligible_row_selected(s: Seq<RowModel>, with_inflight: bool, now: u64, i: int)
    requires
        0 <= i < s.len(),
        eligible(s[i], with_inflight, now),
        spec_batch_rows(s, with_inflight, now).len() <= PING_BATCH_SIZE,
    ensures
        spec_batch(s, with_inflight, now).contains(ping_of_row(s[i])),
{
    let k = row_rank(s[i]);
    lemma_sel_rank_contains(s, with_inflight, now, k, i);
    let r0 = sel_rank(s, with_inflight, now, 0);
    let r1 = sel_rank(s, with_inflight, now, 1);
    let r2 = sel_rank(s, with_inflight, now, 2);
    let r3 = sel_rank(s, with_inflight, now, 3);
    let rows = spec_batch_rows(s, with_inflight, now);
    let sub = sel_rank(s, with_inflight, now, k);
    let w = choose|w: int| 0 <= w < sub.len() && sub[w] == s[i];
    let idx = if k == 0 {
        w
    } else if k == 1 {
        r0.len() + w
    } else if k == 2 {
        r0.len() + r1.len() + w
    } else {
        r0.len() + r1.len() + r2.len() + w
    };
    assert(rows[idx] == s[i]);
    assert(spec_batch(s, with_inflight, now)[idx] == ping_of_row(s[i]));
    assert(spec_batch(s, with_inflight, now).contains(ping_of_row(s[i])));
}

/// The views of a vector of stored rows.
pub open spec fn rows_view(v: Seq<QueueRow>) -> Seq<RowModel> {
    v.map_values(|r: QueueRow| r@)
}

/// The queue itself: an ordered keyed collection of rows, never holding two
/// rows with one URL.
pub struct QueueStore {
    rows: Vec<QueueRow>,
}

impl View for QueueStore {
    type V = Seq<RowModel>;

    closed spec fn view(&self) -> Seq<RowModel> {
        self.rows@.map_values(|r: QueueRow| r@)
    }
}

impl QueueStore {
    /// The queue's invariant: no URL twice.
    pub open spec fn wf(self) -> bool {
        wf_rows(self@)
    }

    /// An empty queue.
    pub fn new() -> (s: QueueStore)
        ensures
            s@ == Seq::<RowModel>::empty(),
            s.wf(),
    {
        let s = QueueStore { rows: Vec::new() };
        proof {
            assert(s@ =~= Seq::<RowModel>::empty());
        }
        s
    }

    /// How many rows the queue holds.
    pub fn len(&self) -> (n: usize)
        ensures
            n == self@.len(),
    {
        self.rows.len()
    }

    /// A copy of every stored row, in insertion order; what a persistence
    /// layer writes out.
    pub fn export_rows(&self) -> (r: Vec<QueueRow>)
        ensures
            rows_view(r@) == self@,
    {
        let mut out: Vec<QueueRow> = Vec::new();
        let n = self.rows.len();
        for i in 0..n
            invariant
                n == self.rows.len(),
                rows_view(out@) =~= self@.take(i as int),
        {
            let ghost pre = out@;
            out.push(
                QueueRow {
                    url: self.rows[i].url.clone(),
                    createdon: self.rows[i].createdon,
                    reason: self.rows[i].reason.clone(),
                    medium: self.rows[i].medium.clone(),
                    inflight: self.rows[i].inflight,
                },
            );
            proof {
                assert(out@ == pre.push(out@.last()));
                assert(out@.last()@ == self@[i as int]);
                assert(self@.take(i as int + 1).drop_last() =~= self@.take(i as int));
                assert(self@.take(i as int + 1).last() == self@[i as int]);
                assert forall|idx: int| 0 <= idx < out@.len() implies #[trigger] rows_view(
                    out@,
                )[idx] == self@.take(i as int + 1)[idx] by {
                    if idx < pre.len() {
                        assert(rows_view(pre)[idx] == self@.take(i as int)[idx]);
                        assert(out@[idx] == pre[idx]);
                    }
                }
                assert(rows_view(out@) =~= self@.take(i as int + 1));
            }
        }
        proof {
            assert(self@.take(n as int) =~= self@);
        }
        out
    }

    /// The index of the row with this URL, if one exists.
    fn find(&self, url: &String) -> (r: Option<usize>)
        ensures
            match r {
                None => spec_find(self@, url@) is None,
                Some(i) => spec_find(self@, url@) == Some(i as int),
            },
    {
        let n = self.rows.len();
        for i in 0..n
            invariant
                n == self.rows.len(),
                forall|j: int| 0 <= j < i ==> self@[j].url != url@,
        {
            if crate::text::str_eq(self.rows[i].url.as_str(), url.as_str()) {
                proof {
                    lemma_find_first(self@, url@, i as int);
                }
                return Some(i);
            }
        }
        proof {
            lemma_find_none(self@, url@);
        }
        None
    }

    /// Inserts a notification.  A fresh URL is appended un-inflight; a
    /// colliding live or live-end notification replaces the stored row and
    /// re-arms it; any other collision leaves the queue unchanged.
    pub fn add_ping_to_queue(&mut self, ping: &Ping) -> (r: AddOutcome)
        requires
            old(self).wf(),
        ensures
            final(self).wf(),
            final(self)@ == spec_add(old(self)@, ping@),
            match spec_find(old(self)@, ping@.url) {
                None => r == AddOutcome::Inserted,
                Some(i) => if ping@.reason == Reason::Live || ping@.reason == Reason::LiveEnd {
                    r == AddOutcome::Upserted
                } else {
                    r == AddOutcome::DuplicateRejected
                },
            },
    {
        let row = QueueRow {
            url: ping.url.clone(),
            createdon: ping.time,
            reason: ping.reason.to_text(),
            medium: ping.medium.to_text(),
            inflight: false,
        };
        match self.find(&ping.url) {
            None => {
                proof {
                    lemma_spec_find(self@, ping@.url);
                }
                let ghost pre = self@;
                self.rows.push(row);
                proof {
                    assert(self@ =~= pre.push(row_of_ping(ping@)));
                }
                AddOutcome::Inserted
            },
            Some(i) => {
                let is_live = match ping.reason {
                    Reason::Live => true,
                    Reason::LiveEnd => true,
                    _ => false,
                };
                if is_live {
                    proof {
                        lemma_spec_find(self@, ping@.url);
                    }
                    let ghost pre = self@;
                    self.rows[i] = row;
                    proof {
                        assert(self@ =~= pre.update(i as int, row_of_ping(ping@)));
                        assert(self@[i as int].url == pre[i as int].url);
                    }
                    AddOutcome::Upserted
                } else {
                    AddOutcome::DuplicateRejected
                }
            },
        }
    }

    /// Replaces the row with this notification's URL, re-arming it.  Leaves
    /// the queue unchanged when the URL is absent.
    pub fn update_ping_in_queue(&mut self, ping: &Ping) -> (r: bool)
        requires
            old(self).wf(),
        ensures
            final(self).wf(),
            match spec_find(old(self)@, ping@.url) {
                None => !r && final(self)@ == old(self)@,
                Some(i) => r && final(self)@ == old(self)@.update(i, row_of_ping(ping@)),
            },
    {
        match self.find(&ping.url) {
            None => false,
            Some(i) => {
                proof {
                    lemma_spec_find(self@, ping@.url);
                }
                let ghost pre = self@;
                let row = QueueRow {
                    url: ping.url.clone(),
                    createdon: ping.time,
                    reason: ping.reason.to_text(),
                    medium: ping.medium.to_text(),
                    inflight: false,
                };
                self.rows[i] = row;
                proof {
                    assert(self@ =~= pre.update(i as int, row_of_ping(ping@)));
                    assert(self@[i as int].url == pre[i as int].url);
                }
                true
            },
        }
    }

    /// Marks the row with this notification's URL as handed to the writer.
    /// Leaves the queue unchanged when the URL is absent.
    pub fn set_ping_as_inflight(&mut self, ping: &Ping) -> (r: bool)
        requires
            old(self).wf(),
        ensures
            final(self).wf(),
            match spec_find(old(self)@, ping@.url) {
                None => !r && final(self)@ == old(self)@,
                Some(i) => r && final(self)@ == old(self)@.update(
                    i,
                    RowModel { inflight: true, ..old(self)@[i] },
                ),
            },
    {
        match self.find(&ping.url) {
            None => false,
            Some(i) => {
                proof {
                    lemma_spec_find(self@, ping@.url);
                }
                let ghost pre = self@;
                let row = QueueRow {
                    url: self.rows[i].url.clone(),
                    createdon: self.rows[i].createdon,
                    reason: self.rows[i].reason.clone(),
                    medium: self.rows[i].medium.clone(),
                    inflight: true,
                };
                self.rows[i] = row;
                proof {
                    assert(self@ =~= pre.update(i as int, RowModel { inflight: true, ..pre[i as int] }));
                    assert(self@[i as int].url == pre[i as int].url);
                }
                true
            },
        }
    }

    /// Removes the row with this URL, if one exists.
    pub fn delete_ping_from_queue(&mut self, url: &String) -> (r: bool)
        requires
            old(self).wf(),
        ensures
            final(self).wf(),
            final(self)@ == spec_delete_url(old(self)@, url@),
            match spec_find(old(self)@, url@) {
                None => !r && final(self)@ == old(self)@,
                Some(i) => r && final(self)@ == old(self)@.remove(i),
            },
            forall|j: int| 0 <= j < final(self)@.len() ==> final(self)@[j].url != url@,
    {
        proof {
            lemma_spec_find(self@, url@);
        }
        match self.find(url) {
            None => false,
            Some(i) => {
                let ghost pre = self@;
                self.rows.remove(i);
                proof {
                    assert(self@ =~= pre.remove(i as int));
                    assert forall|a: int, b: int|
                        0 <= a < b < self@.len() implies self@[a].url != self@[b].url by {
                        lemma_remove_index(pre, i as int, a);
                        lemma_remove_index(pre, i as int, b);
                    }
                    assert forall|j: int| 0 <= j < self@.len() implies self@[j].url != url@ by {
                        lemma_remove_index(pre, i as int, j);
                    }
                }
                true
            },
        }
    }

    /// Puts back one persisted row, textual fields as they were stored.
    /// Leaves the queue unchanged when a row with the URL already exists.
    pub fn restore_row(&mut self, row: PingRow, inflight: bool) -> (r: bool)
        requires
            old(self).wf(),
        ensures
            final(self).wf(),
            match spec_find(old(self)@, row.url@) {
                None => r && final(self)@ == old(self)@.push(
                    RowModel {
                        url: row.url@,
                        createdon: row.time,
                        reason: row.reason@,
                        medium: row.medium@,
                        inflight: inflight,
                    },
                ),
                Some(_) => !r && final(self)@ == old(self)@,
            },
    {
        match self.find(&row.url) {
            None => {
                proof {
                    lemma_spec_find(self@, row.url@);
                }
                let ghost pre = self@;
                let q = QueueRow {
                    url: row.url,
                    createdon: row.time,
                    reason: row.reason,
                    medium: row.medium,
                    inflight: inflight,
                };
                self.rows.push(q);
                proof {
                    assert(self@ =~= pre.push(self@.last()));
                }
                true
            },
            Some(_) => false,
        }
    }

    /// Selects the next batch to send: eligible rows, by priority rank and
    /// then insertion order, at most `PING_BATCH_SIZE` of them.  A row is
    /// eligible when it is older than the debounce window and, unless
    /// `with_in_flight` is set, not already inflight.
    pub fn get_pings_from_queue(&self, with_in_flight: bool, now: u64) -> (r: Vec<Ping>)
        ensures
            pings_view(r@) == spec_batch(self@, with_in_flight, now),
    {
        let mut out: Vec<Ping> = Vec::new();
        let n = self.rows.len();
        let mut k: usize = 0;
        while k < 4
            invariant
                n == self.rows.len(),
                k <= 4,
                pings_view(out@) =~= rows_to_pings(
                    sel_ranks_upto(self@, with_in_flight, now, k as int),
                ),
            decreases 4 - k,
        {
            let mut i: usize = 0;
            while i < n
                invariant
                    n == self.rows.len(),
                    k < 4,
                    i <= n,
                    pings_view(out@) =~= rows_to_pings(
                        sel_ranks_upto(self@, with_in_flight, now, k as int) + sel_rank(
                            self@.take(i as int),
                            with_in_flight,
                            now,
                            k as int,
                        ),
                    ),
                decreases n - i,
            {
                let ghost pre_out = out@;
                let ghost upto = sel_ranks_upto(self@, with_in_flight, now, k as int);
                let ghost si = sel_rank(self@.take(i as int), with_in_flight, now, k as int);
                let ghost si1 = sel_rank(self@.take(i as int + 1), with_in_flight, now, k as int);
                let row = &self.rows[i];
                let old_enough = row.createdon < now && now - row.createdon > DEBOUNCE_SECONDS;
                let open = with_in_flight || !row.inflight;
                proof {
                    lemma_sel_rank_step(self@, with_in_flight, now, k as int, i as int);
                    assert(row@ == self@[i as int]);
                }
                if old_enough && open {
                    let rank = row_rank_exec(row);
                    if rank == k {
                        let ping = Ping {
                            url: row.url.clone(),
                            time: row.createdon,
                            reason: Reason::from_text(row.reason.as_str()),
                            medium: Medium::from_text(row.medium.as_str()),
                        };
                        proof {
                            assert(ping@ == ping_of_row(self@[i as int]));
                        }
                        out.push(ping);
                        proof {
                            assert(upto + si1 =~= (upto + si).push(self@[i as int]));
                            lemma_rows_to_pings_push(upto + si, self@[i as int]);
                            lemma_pings_view_push(pre_out, ping);
                            assert(out@ == pre_out.push(ping));
                            assert(pings_view(out@) =~= rows_to_pings(upto + si1));
                        }
                    } else {
                        proof {
                            assert(upto + si1 =~= upto + si);
                        }
                    }
                } else {
                    proof {
                        assert(upto + si1 =~= upto + si);
                    }
                }
                i = i + 1;
            }
            proof {
                assert(self@.take(n as int) =~= self@);
            }
            k = k + 1;
        }
        proof {
            reveal_with_fuel(sel_ranks_upto, 6);
            assert(sel_ranks_upto(self@, with_in_flight, now, 4) =~= spec_batch_rows(
                self@,
                with_in_flight,
                now,
            ));
        }
        if out.len() > PING_BATCH_SIZE {
            let ghost pre = out@;
            out.truncate(PING_BATCH_SIZE);
            proof {
                let rows = spec_batch_rows(self@, with_in_flight, now);
                assert(out@ == pre.subrange(0, PING_BATCH_SIZE as int));
                assert(pre.len() == rows.len());
                assert forall|idx: int| 0 <= idx < out@.len() implies pings_view(out@)[idx]
                    == rows_to_pings(rows.take(PING_BATCH_SIZE as int))[idx] by {
                    assert(pings_view(pre)[idx] == rows_to_pings(rows)[idx]);
                    assert(out@[idx] == pre[idx]);
                    assert(rows.take(PING_BATCH_SIZE as int)[idx] == rows[idx]);
                }
                assert(pings_view(out@) =~= rows_to_pings(rows.take(PING_BATCH_SIZE as int)));
            }
        }
        proof {
            assert(pings_view(out@) =~= spec_batch(self@, with_in_flight, now));
        }
        out
    }

    /// Re-arms stale inflight rows, oldest position first, at most
    /// `RESET_BATCH_SIZE` of them in one pass; each re-armed row's age
    /// restarts at `now`.
    pub fn reset_pings_in_flight(&mut self, now: u64)
        requires
            old(self).wf(),
        ensures
            final(self).wf(),
            final(self)@.len() == old(self)@.len(),
            forall|i: int|
                0 <= i < old(self)@.len() ==> final(self)@[i] == spec_reset_result(
                    old(self)@,
                    now,
                    i,
                ),
    {
        let ghost pre = self@;
        let n = self.rows.len();
        let mut count: usize = 0;
        let mut i: usize = 0;
        while i < n
            invariant
                n == self.rows.len(),
                n == pre.len(),
                i <= n,
                self.wf(),
                count <= RESET_BATCH_SIZE,
                if count < RESET_BATCH_SIZE {
                    count == n_stale_before(pre, now, i as int)
                } else {
                    n_stale_before(pre, now, i as int) >= RESET_BATCH_SIZE
                },
                forall|j: int| 0 <= j < i ==> self@[j] == spec_reset_result(pre, now, j),
                forall|j: int| i <= j < n ==> self@[j] == pre[j],
            decreases n - i,
        {
            if count < RESET_BATCH_SIZE {
                let row = &self.rows[i];
                if row.inflight && row.createdon < now && now - row.createdon > STALE_SECONDS {
                    let fresh = QueueRow {
                        url: self.rows[i].url.clone(),
                        createdon: now,
                        reason: self.rows[i].reason.clone(),
                        medium: self.rows[i].medium.clone(),
                        inflight: false,
                    };
                    let ghost mid = self@;
                    self.rows[i] = fresh;
                    proof {
                        assert(self@ =~= mid.update(i as int, reset_row(pre[i as int], now)));
                    }
                    count = count + 1;
                }
            }
            i = i + 1;
        }
    }
}

/// The concatenation of the rank selections strictly below `k`.
pub open spec fn sel_ranks_upto(s: Seq<RowModel>, with_inflight: bool, now: u64, k: int) -> Seq<
    RowModel,
>
    decreases k,
{
    if k <= 0 {
        Seq::empty()
    } else {
        sel_ranks_upto(s, with_inflight, now, k - 1) + sel_rank(s, with_inflight, now, k - 1)
    }
}

/// Priority rank of a stored row, as executable code.
fn row_rank_exec(row: &QueueRow) -> (r: usize)
    ensures
        r == row_rank(row@),
{
    match Reason::from_text(row.reason.as_str()) {
        Reason::LiveEnd => 0,
        Reason::Live => 1,
        Reason::NewIRI => 2,
        Reason::Update => 3,
    }
}

proof fn lemma_sel_rank_step(s: Seq<RowModel>, with_inflight: bool, now: u64, k: int, i: int)
    requires
        0 <= i < s.len(),
    ensures
        sel_rank(s.take(i + 1), with_inflight, now, k) == sel_rank(
            s.take(i),
            with_inflight,
            now,
            k,
        ) + (if eligible(s[i], with_inflight, now) && row_rank(s[i]) == k {
            seq![s[i]]
        } else {
            Seq::<RowModel>::empty()
        }),
{
    assert(s.take(i + 1).drop_last() =~= s.take(i));
    assert(s.take(i + 1).last() == s[i]);
}

proof fn lemma_find_first(s: Seq<RowModel>, url: Seq<char>, i: int)
    requires
        0 <= i < s.len(),
        s[i].url == url,
        forall|j: int| 0 <= j < i ==> s[j].url != url,
    ensures
        spec_find(s, url) == Some(i),
    decreases i,
{
    if i > 0 {
        assert forall|j: int| 0 <= j < i - 1 implies s.drop_first()[j].url != url by {
            assert(s.drop_first()[j] == s[j + 1]);
        }
        assert(s.drop_first()[i - 1] == s[i]);
        lemma_find_first(s.drop_first(), url, i - 1);
    }
}

proof fn lemma_find_none(s: Seq<RowModel>, url: Seq<char>)
    requires
        forall|j: int| 0 <= j < s.len() ==> s[j].url != url,
    ensures
        spec_find(s, url) is None,
    decreases s.len(),
{
    if s.len() > 0 {
        assert forall|j: int| 0 <= j < s.drop_first().len() implies s.drop_first()[j].url
            != url by {
            assert(s.drop_first()[j] == s[j + 1]);
        }
        lemma_find_none(s.drop_first(), url);
    }
}

proof fn lemma_remove_index(s: Seq<RowModel>, i: int, j: int)
    requires
        0 <= i < s.len(),
        0 <= j < s.len() - 1,
    ensures
        s.remove(i)[j] == if j < i {
            s[j]
        } else {
            s[j + 1]
        },
{
}

} // verus!
