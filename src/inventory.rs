//! Inventory snapshots from the agents, kept for half an hour, and the
//! reports computed from them: throughput for inputs and outputs, contents
//! for storage.
use vstd::prelude::*;
use std::collections::VecDeque;

verus! {

/// The agents send one snapshot every this many seconds.
pub const SECONDS_PER_REPORT: u64 = 5;

/// Snapshots this old, in milliseconds (30 minutes), are dropped.
pub const RETENTION_MILLIS: u64 = 30 * 60 * 1000;

/// Room set aside for the snapshots of a computer seen for the first time:
/// 30 minutes of them.
pub const RESERVED_REPORTS: usize = 30 * 60 / 5;

/// One slot of an inventory.
#[derive(Debug, Clone)]
pub struct InventoryItem {
    pub slot: i64,
    pub name: String,
    pub count: i64,
}

/// What an inventory is for.
#[derive(Debug, Clone)]
pub enum InventoryType {
    /// The inventory drains into `destination`; counts are items passing
    /// through in one snapshot interval.
    Input { destination: String },
    /// The inventory is filled from `source`; counts as for `Input`.
    Output { source: String },
    /// Counts are what the inventory holds.
    Storage,
}

/// The same kind of inventory, with the same destination or source.
pub open spec fn same_type(a: InventoryType, b: InventoryType) -> bool {
    match (a, b) {
        (InventoryType::Input { destination: x }, InventoryType::Input { destination: y }) => x@
            == y@,
        (InventoryType::Output { source: x }, InventoryType::Output { source: y }) => x@ == y@,
        (InventoryType::Storage, InventoryType::Storage) => true,
        _ => false,
    }
}

impl PartialEq for InventoryType {
    fn eq(&self, other: &InventoryType) -> (r: bool) {
        match (self, other) {
            (InventoryType::Input { destination: x }, InventoryType::Input { destination: y }) => *x
                == *y,
            (InventoryType::Output { source: x }, InventoryType::Output { source: y }) => *x == *y,
            (InventoryType::Storage, InventoryType::Storage) => true,
            _ => false,
        }
    }
}

impl vstd::std_specs::cmp::PartialEqSpecImpl for InventoryType {
    open spec fn obeys_eq_spec() -> bool {
        true
    }

    open spec fn eq_spec(&self, other: &InventoryType) -> bool {
        same_type(*self, *other)
    }
}

/// A snapshot of one inventory, as an agent sends it.
#[derive(Debug, Clone)]
pub struct InventoryReport {
    pub common_name: String,
    pub computer_id: i64,
    pub inventory: Vec<InventoryItem>,
    pub peripheral_name: String,
    pub inventory_type: InventoryType,
}

/// The throughput of one item: `total` items passed in `reports`
/// snapshots, so `total / (reports * SECONDS_PER_REPORT)` items a second.
#[derive(Debug, Clone)]
pub struct InventoryRate {
    pub name: String,
    pub total: i128,
    pub reports: usize,
}

/// How many of one item a storage inventory holds.
#[derive(Debug, Clone)]
pub struct InventoryItemCount {
    pub name: String,
    pub count: i64,
}

/// The report on one computer's inventory.
#[derive(Debug, Clone)]
pub enum InventoryManagerReport {
    Input(Vec<InventoryRate>),
    Output(Vec<InventoryRate>),
    Storage(Vec<InventoryItemCount>),
}

/// A snapshot and the time it came in, in milliseconds.
pub type Entry = (u64, InventoryReport);

/// The number of inventory slots in `entries`, all snapshots together.
pub open spec fn total_items(entries: Seq<Entry>) -> nat
    decreases entries.len(),
{
    if entries.len() == 0 {
        0
    } else {
        total_items(entries.drop_last()) + entries.last().1.inventory@.len()
    }
}

/// What the aggregator holds: snapshots, newest first, and the time of the
/// latest one taken in.
pub struct InventoryState {
    pub entries: Seq<Entry>,
    pub latest: u64,
}

/// Keeps the snapshots of the last 30 minutes, newest first.
pub struct InventoryManager {
    inventory_reports: VecDeque<Entry>,
    computer_ids: Vec<i64>,
    latest: u64,
    item_count: usize,
}

impl View for InventoryManager {
    type V = InventoryState;

    closed spec fn view(&self) -> InventoryState {
        InventoryState { entries: self.inventory_reports@, latest: self.latest }
    }
}

/// A snapshot taken in at `t` is still kept at `now`.
pub open spec fn is_recent(t: u64, now: u64) -> bool {
    now < t + RETENTION_MILLIS
}

impl InventoryManager {
    /// Snapshots are ordered newest first, none is later than the latest
    /// time taken in, and none was older than 30 minutes then.
    pub closed spec fn wf(&self) -> bool {
        &&& forall|i: int, j: int|
            0 <= i < j < self@.entries.len() ==> #[trigger] self@.entries[i].0
                >= #[trigger] self@.entries[j].0
        &&& forall|i: int|
            0 <= i < self@.entries.len() ==> #[trigger] self@.entries[i].0 <= self@.latest
                && is_recent(self@.entries[i].0, self@.latest)
        &&& self.item_count == total_items(self@.entries)
    }

    /// Every kept snapshot came in less than 30 minutes before the latest
    /// one, and they stand newest first.
    pub proof fn lemma_retention(&self)
        requires
            self.wf(),
        ensures
            forall|i: int|
                0 <= i < self@.entries.len() ==> is_recent(#[trigger] self@.entries[i].0, self@.latest),
            forall|i: int, j: int|
                0 <= i < j < self@.entries.len() ==> #[trigger] self@.entries[i].0
                    >= #[trigger] self@.entries[j].0,
    {
    }

    /// An aggregator that holds nothing.
    pub fn new() -> (r: Self)
        ensures
            r.wf(),
            r@.entries.len() == 0,
            r@.latest == 0,
    {
        InventoryManager {
            inventory_reports: VecDeque::new(),
            computer_ids: Vec::new(),
            latest: 0,
            item_count: 0,
        }
    }

    /// The number of inventory slots held, all snapshots together.
    pub fn item_count(&self) -> (r: usize)
        requires
            self.wf(),
        ensures
            r == total_items(self@.entries),
    {
        self.item_count
    }

    /// Takes in a snapshot at time `now`: drops the snapshots that are 30
    /// minutes old by then and puts the new one in front.
    pub fn ingest(&mut self, now: u64, report: InventoryReport)
        requires
            old(self).wf(),
            old(self)@.latest <= now,
            total_items(old(self)@.entries) + report.inventory@.len() <= usize::MAX,
        ensures
            final(self).wf(),
            final(self)@.latest == now,
            1 <= final(self)@.entries.len() <= old(self)@.entries.len() + 1,
            final(self)@.entries[0] == (now, report),
            final(self)@.entries.skip(1) == old(self)@.entries.take(
                final(self)@.entries.len() - 1,
            ),
            forall|i: int|
                final(self)@.entries.len() - 1 <= i < old(self)@.entries.len() ==> !is_recent(
                    #[trigger] old(self)@.entries[i].0,
                    now,
                ),
            forall|i: int|
                0 <= i < final(self)@.entries.len() ==> is_recent(#[trigger] final(self)@.entries[i].0, now),
    {
        let ghost old_entries = self@.entries;
        loop
            invariant_except_break
                self.wf(),
                old(self)@.latest <= now,
                self@.latest == old(self)@.latest,
                self@.entries.len() <= old_entries.len(),
                self@.entries == old_entries.take(self@.entries.len() as int),
                forall|i: int|
                    self@.entries.len() <= i < old_entries.len() ==> !is_recent(
                        #[trigger] old_entries[i].0,
                        now,
                    ),
            ensures
                self.wf(),
                self@.latest == old(self)@.latest,
                self@.entries.len() <= old_entries.len(),
                self@.entries == old_entries.take(self@.entries.len() as int),
                forall|i: int|
                    self@.entries.len() <= i < old_entries.len() ==> !is_recent(
                        #[trigger] old_entries[i].0,
                        now,
                    ),
                forall|i: int| 0 <= i < self@.entries.len() ==> is_recent(#[trigger] self@.entries[i].0, now),
            decreases self@.entries.len(),
        {
            let len = self.inventory_reports.len();
            if len == 0 {
                break;
            }
            let back_time = self.inventory_reports[len - 1].0;
            if (now as u128) < (back_time as u128) + (RETENTION_MILLIS as u128) {
                assert forall|i: int| 0 <= i < self@.entries.len() implies is_recent(
                    #[trigger] self@.entries[i].0,
                    now,
                ) by {
                    assert(self@.entries[i].0 >= self@.entries[len - 1].0);
                }
                break;
            }
            let ghost before = self@.entries;
            let dropped = self.inventory_reports.pop_back();
            match dropped {
                Some(e) => {
                    assert(self@.entries =~= before.drop_last());
                    assert(before.drop_last() =~= old_entries.take(len - 1));
                    self.item_count = self.item_count - e.1.inventory.len();
                },
                None => {},
            }
        }
        let id = report.computer_id;
        let mut seen = false;
        let mut k: usize = 0;
        while k < self.computer_ids.len()
            invariant
                k <= self.computer_ids@.len(),
            decreases self.computer_ids@.len() - k,
        {
            if self.computer_ids[k] == id {
                seen = true;
            }
            k += 1;
        }
        if !seen {
            self.computer_ids.push(id);
            self.inventory_reports.reserve(RESERVED_REPORTS);
        }
        let ghost kept = self@.entries;
        proof {
            lemma_total_items_prefix(old_entries, kept.len() as int);
        }
        let added = report.inventory.len();
        self.inventory_reports.push_front((now, report));
        self.latest = now;
        proof {
            let entries = self@.entries;
            assert(entries.skip(1) =~= kept);
            lemma_total_items_cons((now, report), kept);
        }
        self.item_count = self.item_count + added;
    }

    /// The report on computer `computer_id` over the snapshots that came in
    /// at most `window` milliseconds before `now`. The snapshots are scanned
    /// newest first; the newest fixes the kind of report, and the scan stops
    /// at the first snapshot of another kind. Inputs and outputs get the
    /// rate of each item over the snapshots scanned; storage gets the
    /// contents of the newest snapshot alone. `None` if no snapshot matches.
    pub fn get_report(&self, now: u64, computer_id: i64, window: u64) -> (r: Option<InventoryManagerReport>)
        requires
            self.wf(),
        ensures
            ({
                let sc = scan(self@.entries, computer_id, now, window);
                match r {
                    None => sc.kind is None,
                    Some(InventoryManagerReport::Input(v)) => {
                        &&& sc.kind matches Some(InventoryType::Input { .. })
                        &&& is_rate_list(v@, sc.accepted)
                    },
                    Some(InventoryManagerReport::Output(v)) => {
                        &&& sc.kind matches Some(InventoryType::Output { .. })
                        &&& is_rate_list(v@, sc.accepted)
                    },
                    Some(InventoryManagerReport::Storage(v)) => {
                        &&& sc.kind matches Some(InventoryType::Storage)
                        &&& sc.accepted.len() == 1
                        &&& is_count_list(v@, sc.accepted[0])
                    },
                }
            }),
    {
        let n = self.inventory_reports.len();
        let mut found = false;
        let mut first: usize = 0;
        let mut stopped = false;
        let mut reports: usize = 0;
        let mut totals: Vec<(String, i128)> = Vec::new();
        let ghost mut accepted: Seq<InventoryReport> = Seq::empty();
        let mut i: usize = 0;
        assert(self@.entries.take(0) =~= Seq::<Entry>::empty());
        while i < n
            invariant
                self.wf(),
                n == self@.entries.len(),
                i <= n,
                scan(self@.entries.take(i as int), computer_id, now, window) == (Scan {
                    kind: if found {
                        Some(self@.entries[first as int].1.inventory_type)
                    } else {
                        None
                    },
                    accepted,
                    stopped,
                }),
                found ==> first < i && accepted.len() >= 1 && accepted[0] == self@.entries[first as int].1,
                found && self@.entries[first as int].1.inventory_type is Storage ==> accepted.len() == 1 && stopped,
                !found ==> accepted.len() == 0 && !stopped,
                reports == accepted.len(),
                reports <= i,
                totals_of(totals@, flat_items(accepted)),
                flat_items(accepted).len() <= total_items(self@.entries.take(i as int)),
            decreases n - i,
        {
            let e = &self.inventory_reports[i];
            let ghost entries = self@.entries;
            proof {
                assert(entries.take(i + 1).drop_last() =~= entries.take(i as int));
                assert(entries.take(i + 1).last() == entries[i as int]);
                lemma_total_items_prefix(entries, i + 1);
            }
            if !stopped && (now as u128) <= (e.0 as u128) + (window as u128) && e.1.computer_id == computer_id {
                let accept = if !found {
                    true
                } else {
                    e.1.inventory_type == self.inventory_reports[first].1.inventory_type
                };
                if accept {
                    add_items(&mut totals, &e.1.inventory, Ghost(flat_items(accepted)));
                    proof {
                        let grown = accepted.push(e.1);
                        assert(grown.drop_last() =~= accepted);
                        if !found {
                            assert(grown =~= seq![e.1]);
                        }
                        accepted = grown;
                    }
                    reports += 1;
                    if !found {
                        found = true;
                        first = i;
                        stopped = matches!(e.1.inventory_type, InventoryType::Storage);
                    }
                } else {
                    stopped = true;
                }
            }
            i += 1;
        }
        assert(self@.entries.take(n as int) =~= self@.entries);
        if !found {
            return None;
        }
        match &self.inventory_reports[first].1.inventory_type {
            InventoryType::Storage => {
                proof {
                    assert(seq![accepted[0]].drop_last() =~= Seq::<InventoryReport>::empty());
                    assert(accepted =~= seq![accepted[0]]);
                    assert(flat_items(accepted) =~= accepted[0].inventory@);
                }
                Some(InventoryManagerReport::Storage(count_list(totals, Ghost(accepted[0]))))
            },
            InventoryType::Input { .. } => {
                Some(InventoryManagerReport::Input(rate_list(totals, reports, Ghost(accepted))))
            },
            InventoryType::Output { .. } => {
                Some(InventoryManagerReport::Output(rate_list(totals, reports, Ghost(accepted))))
            },
        }
    }
}

/// Counting the slots of a snapshot put in front of others.
proof fn lemma_total_items_cons(e: Entry, rest: Seq<Entry>)
    ensures
        total_items(seq![e] + rest) == e.1.inventory@.len() + total_items(rest),
    decreases rest.len(),
{
    let all = seq![e] + rest;
    if rest.len() == 0 {
        assert(all.drop_last() =~= Seq::<Entry>::empty());
        assert(all.last() == e);
        assert(total_items(all) == total_items(all.drop_last()) + e.1.inventory@.len());
        assert(total_items(Seq::<Entry>::empty()) == 0);
    } else {
        lemma_total_items_cons(e, rest.drop_last());
        assert(all.drop_last() =~= seq![e] + rest.drop_last());
        assert(all.last() == rest.last());
    }
}

/// A prefix of the snapshots has no more slots than all of them.
proof fn lemma_total_items_prefix(entries: Seq<Entry>, k: int)
    requires
        0 <= k <= entries.len(),
    ensures
        total_items(entries.take(k)) <= total_items(entries),
    decreases entries.len(),
{
    if k < entries.len() {
        lemma_total_items_prefix(entries.drop_last(), k);
        assert(entries.drop_last().take(k) =~= entries.take(k));
    } else {
        assert(entries.take(k) =~= entries);
    }
}

/// `a` comes before `b` in the order of their characters' code points, a
/// proper prefix first (the order of `str`'s `Ord`).
pub open spec fn name_lt(a: Seq<char>, b: Seq<char>) -> bool
    decreases a.len(),
{
    if a.len() == 0 {
        b.len() > 0
    } else if b.len() == 0 {
        false
    } else if a[0] != b[0] {
        a[0] < b[0]
    } else {
        name_lt(a.drop_first(), b.drop_first())
    }
}

/// Two different names are ordered one way and not the other.
proof fn lemma_name_lt_total(a: Seq<char>, b: Seq<char>)
    ensures
        !(name_lt(a, b) && name_lt(b, a)),
        a != b ==> name_lt(a, b) || name_lt(b, a),
        !name_lt(a, a),
    decreases a.len(),
{
    if a.len() > 0 && b.len() > 0 && a[0] == b[0] {
        lemma_name_lt_total(a.drop_first(), b.drop_first());
        if a != b {
            assert(a.drop_first() != b.drop_first()) by {
                if a.drop_first() == b.drop_first() {
                    assert forall|i: int| 0 <= i < a.len() implies a[i] == b[i] by {
                        if i > 0 {
                            assert(a[i] == a.drop_first()[i - 1]);
                            assert(b[i] == b.drop_first()[i - 1]);
                        }
                    }
                    assert(a =~= b);
                }
            }
        }
    } else if a.len() > 0 {
        lemma_name_lt_total(a.drop_first(), a.drop_first());
    }
    if a.len() == 0 && b.len() == 0 {
        assert(a =~= b);
    }
}

/// The order of names is transitive.
proof fn lemma_name_lt_transitive(a: Seq<char>, b: Seq<char>, c: Seq<char>)
    requires
        name_lt(a, b),
        name_lt(b, c),
    ensures
        name_lt(a, c),
    decreases a.len(),
{
    if a.len() > 0 && b.len() > 0 && c.len() > 0 && a[0] == b[0] && b[0] == c[0] {
        lemma_name_lt_transitive(a.drop_first(), b.drop_first(), c.drop_first());
    }
}

/// The characters of `s`.
fn chars_of(s: &str) -> (r: Vec<char>)
    ensures
        r@ == s@,
{
    let mut r: Vec<char> = Vec::new();
    for c in it: s.chars()
        invariant
            it.seq() == s@,
            r@ == s@.take(it.index()),
    {
        r.push(c);
    }
    assert(s@.take(s@.len() as int) =~= s@);
    r
}

/// Whether name `a` comes before name `b`.
fn name_less(a: &String, b: &String) -> (r: bool)
    ensures
        r == name_lt(a@, b@),
{
    let x = chars_of(a.as_str());
    let y = chars_of(b.as_str());
    let mut i: usize = 0;
    assert(x@.skip(0) =~= x@);
    assert(y@.skip(0) =~= y@);
    while i < x.len() && i < y.len() && x[i] == y[i]
        invariant
            i <= x@.len(),
            i <= y@.len(),
            name_lt(x@, y@) == name_lt(x@.skip(i as int), y@.skip(i as int)),
        decreases x@.len() - i,
    {
        assert(x@.skip(i as int).drop_first() =~= x@.skip(i + 1));
        assert(y@.skip(i as int).drop_first() =~= y@.skip(i + 1));
        i += 1;
    }
    if i < x.len() && i < y.len() {
        x[i] < y[i]
    } else {
        i == x.len() && i < y.len()
    }
}

/// Snapshot `e` comes from computer `computer_id` and came in at most
/// `window` milliseconds before `now`.
pub open spec fn is_match(e: Entry, computer_id: i64, now: u64, window: u64) -> bool {
    now <= e.0 + window && e.1.computer_id == computer_id
}

/// Where a scan of the snapshots, newest first, stands.
pub struct Scan {
    /// The kind of the newest matching snapshot, once one was met.
    pub kind: Option<InventoryType>,
    /// The matching snapshots taken into the report, newest first.
    pub accepted: Seq<InventoryReport>,
    /// Later snapshots are no longer looked at: a storage snapshot was
    /// taken, or the kind of inventory changed.
    pub stopped: bool,
}

/// The scan after looking at snapshot `e`.
pub open spec fn scan_step(st: Scan, e: Entry, computer_id: i64, now: u64, window: u64) -> Scan {
    if st.stopped || !is_match(e, computer_id, now, window) {
        st
    } else {
        match st.kind {
            None => Scan {
                kind: Some(e.1.inventory_type),
                accepted: seq![e.1],
                stopped: e.1.inventory_type is Storage,
            },
            Some(k) => if same_type(k, e.1.inventory_type) {
                Scan { accepted: st.accepted.push(e.1), ..st }
            } else {
                Scan { stopped: true, ..st }
            },
        }
    }
}

/// The scan of `entries` in their order, newest first.
pub open spec fn scan(entries: Seq<Entry>, computer_id: i64, now: u64, window: u64) -> Scan
    decreases entries.len(),
{
    if entries.len() == 0 {
        Scan { kind: None, accepted: seq![], stopped: false }
    } else {
        scan_step(scan(entries.drop_last(), computer_id, now, window), entries.last(), computer_id, now, window)
    }
}

/// The slots of `reports`, one snapshot after the other.
pub open spec fn flat_items(reports: Seq<InventoryReport>) -> Seq<InventoryItem>
    decreases reports.len(),
{
    if reports.len() == 0 {
        seq![]
    } else {
        flat_items(reports.drop_last()) + reports.last().inventory@
    }
}

/// The sum of the counts of the slots of `items` that hold `name`.
pub open spec fn items_total(items: Seq<InventoryItem>, name: Seq<char>) -> int
    decreases items.len(),
{
    if items.len() == 0 {
        0
    } else {
        items_total(items.drop_last(), name) + if items.last().name@ == name {
            items.last().count as int
        } else {
            0
        }
    }
}

/// Some slot of `items` holds `name`.
pub open spec fn has_name(items: Seq<InventoryItem>, name: Seq<char>) -> bool {
    exists|i: int| 0 <= i < items.len() && #[trigger] items[i].name@ == name
}

/// `totals` holds each name of `items` once, with its total.
pub open spec fn totals_of(totals: Seq<(String, i128)>, items: Seq<InventoryItem>) -> bool {
    &&& forall|j: int|
        0 <= j < totals.len() ==> #[trigger] totals[j].1 == items_total(items, totals[j].0@)
            && has_name(items, totals[j].0@)
    &&& forall|j: int, k: int| 0 <= j < k < totals.len() ==> #[trigger] totals[j].0@ != #[trigger] totals[k].0@
    &&& forall|n: Seq<char>| has_name(items, n) ==> exists|j: int| 0 <= j < totals.len() && #[trigger] totals[j].0@ == n
}

/// A total over `items` is at most 2^63 per slot away from zero.
proof fn lemma_items_total_bound(items: Seq<InventoryItem>, name: Seq<char>)
    ensures
        -(items.len() * 0x8000_0000_0000_0000) <= items_total(items, name) <= items.len() * 0x8000_0000_0000_0000,
    decreases items.len(),
{
    if items.len() > 0 {
        lemma_items_total_bound(items.drop_last(), name);
    }
}

/// A name that no slot holds has total zero.
proof fn lemma_items_total_absent(items: Seq<InventoryItem>, name: Seq<char>)
    requires
        !has_name(items, name),
    ensures
        items_total(items, name) == 0,
    decreases items.len(),
{
    if items.len() > 0 {
        let rest = items.drop_last();
        assert(!has_name(rest, name)) by {
            if has_name(rest, name) {
                let i = choose|i: int| 0 <= i < rest.len() && #[trigger] rest[i].name@ == name;
                assert(items[i] == rest[i]);
            }
        }
        assert(items.last() == items[items.len() - 1]);
        lemma_items_total_absent(rest, name);
    }
}

/// Adds the slots of `items` to `totals`, which held the totals of `before`.
fn add_items(totals: &mut Vec<(String, i128)>, items: &Vec<InventoryItem>, Ghost(before): Ghost<Seq<InventoryItem>>)
    requires
        totals_of(old(totals)@, before),
        before.len() + items@.len() <= usize::MAX,
    ensures
        totals_of(final(totals)@, before + items@),
{
    let mut k: usize = 0;
    while k < items.len()
        invariant
            k <= items@.len(),
            before.len() + items@.len() <= usize::MAX,
            totals_of(totals@, before + items@.take(k as int)),
        decreases items@.len() - k,
    {
        let ghost done = before + items@.take(k as int);
        let ghost next = before + items@.take(k + 1);
        assert(next =~= done.push(items@[k as int]));
        assert(next.drop_last() =~= done);
        let item = &items[k];
        let mut j: usize = 0;
        let mut found = false;
        while j < totals.len() && !found
            invariant
                j <= totals@.len(),
                totals_of(totals@, done),
                found ==> j > 0 && totals@[j - 1].0@ == item.name@,
                !found ==> forall|q: int| 0 <= q < j ==> #[trigger] totals@[q].0@ != item.name@,
            decreases totals@.len() - j,
        {
            if totals[j].0 == item.name {
                found = true;
            }
            j += 1;
        }
        proof {
            lemma_items_total_bound(next, item.name@);
            assert forall|n: Seq<char>| #[trigger] items_total(next, n) == items_total(done, n) + if item.name@
                == n {
                item.count as int
            } else {
                0
            } by {
                assert(next.last() == item);
            }
            assert forall|n: Seq<char>| has_name(next, n) <==> has_name(done, n) || n == item.name@ by {
                if has_name(next, n) {
                    let i = choose|i: int| 0 <= i < next.len() && #[trigger] next[i].name@ == n;
                    if i < done.len() {
                        assert(done[i] == next[i]);
                    }
                }
                if has_name(done, n) {
                    let i = choose|i: int| 0 <= i < done.len() && #[trigger] done[i].name@ == n;
                    assert(next[i] == done[i]);
                }
                if n == item.name@ {
                    assert(next[done.len() as int] == item);
                }
            }
        }
        if found {
            let at = j - 1;
            let name = totals[at].0.clone();
            proof {
                lemma_items_total_bound(done, item.name@);
            }
            let sum = totals[at].1 + item.count as i128;
            let ghost old_totals = totals@;
            totals.set(at, (name, sum));
            proof {
                assert forall|q: int| 0 <= q < totals@.len() implies #[trigger] totals@[q].1 == items_total(next, totals@[q].0@)
                    && has_name(next, totals@[q].0@) by {
                    if q != at {
                        assert(totals@[q] == old_totals[q]);
                        if q < at {
                            assert(old_totals[q].0@ != old_totals[at as int].0@);
                        } else {
                            assert(old_totals[at as int].0@ != old_totals[q].0@);
                        }
                        assert(old_totals[q].1 == items_total(done, old_totals[q].0@));
                    }
                }
                assert forall|n: Seq<char>| has_name(next, n) implies exists|q: int|
                    0 <= q < totals@.len() && #[trigger] totals@[q].0@ == n by {
                    if n == item.name@ {
                        assert(totals@[at as int].0@ == n);
                    } else {
                        let q = choose|q: int| 0 <= q < old_totals.len() && #[trigger] old_totals[q].0@ == n;
                        assert(totals@[q].0@ == n);
                    }
                }
                assert forall|a: int, b: int| 0 <= a < b < totals@.len() implies #[trigger] totals@[a].0@ != #[trigger] totals@[b].0@ by {
                    assert(old_totals[a].0@ != old_totals[b].0@);
                }
            }
        } else {
            let name = item.name.clone();
            let ghost old_totals = totals@;
            totals.push((name, item.count as i128));
            proof {
                assert(!has_name(done, item.name@)) by {
                    if has_name(done, item.name@) {
                        let q = choose|q: int| 0 <= q < old_totals.len() && #[trigger] old_totals[q].0@ == item.name@;
                    }
                }
                lemma_items_total_absent(done, item.name@);
                assert forall|q: int| 0 <= q < totals@.len() implies #[trigger] totals@[q].1 == items_total(next, totals@[q].0@)
                    && has_name(next, totals@[q].0@) by {
                    if q < old_totals.len() {
                        assert(totals@[q] == old_totals[q]);
                        assert(old_totals[q].0@ != item.name@);
                    }
                }
                assert forall|n: Seq<char>| has_name(next, n) implies exists|q: int|
                    0 <= q < totals@.len() && #[trigger] totals@[q].0@ == n by {
                    if n == item.name@ {
                        assert(totals@[old_totals.len() as int].0@ == n);
                    } else {
                        let q = choose|q: int| 0 <= q < old_totals.len() && #[trigger] old_totals[q].0@ == n;
                        assert(totals@[q].0@ == n);
                    }
                }
                assert forall|a: int, b: int| 0 <= a < b < totals@.len() implies #[trigger] totals@[a].0@ != #[trigger] totals@[b].0@ by {
                    if b == old_totals.len() {
                        assert(totals@[a] == old_totals[a]);
                    } else {
                        assert(old_totals[a].0@ != old_totals[b].0@);
                    }
                }
            }
        }
        k += 1;
    }
    assert(items@.take(items@.len() as int) =~= items@);
}

/// `(ka, na)` ranks before `(kb, nb)`: the larger key first, equal keys in
/// the order of their names.
pub open spec fn ranks_before(ka: int, na: Seq<char>, kb: int, nb: Seq<char>) -> bool {
    ka > kb || (ka == kb && name_lt(na, nb))
}

/// Each pair of `v` ranks before the pairs after it.
pub open spec fn is_ranked(v: Seq<(String, i128)>) -> bool {
    forall|i: int, k: int|
        0 <= i < k < v.len() ==> ranks_before(#[trigger] v[i].1 as int, v[i].0@, #[trigger] v[k].1 as int, v[k].0@)
}

/// No two pairs of `v` have the same name.
pub open spec fn distinct_names(v: Seq<(String, i128)>) -> bool {
    forall|j: int, k: int| 0 <= j < k < v.len() ==> #[trigger] v[j].0@ != #[trigger] v[k].0@
}

/// Whether `(ka, na)` ranks before `(kb, nb)`.
fn rank_before(ka: i128, na: &String, kb: i128, nb: &String) -> (r: bool)
    ensures
        r == ranks_before(ka as int, na@, kb as int, nb@),
{
    ka > kb || (ka == kb && name_less(na, nb))
}

/// Some pair among the first `n` of `v` has the name and the key of `x`.
pub open spec fn pair_among(x: (String, i128), v: Seq<(String, i128)>, n: int) -> bool {
    exists|j: int| 0 <= j < n && #[trigger] v[j].0@ == x.0@ && v[j].1 == x.1
}

/// Puts `(name, key)` into the ranked `r` where it belongs.
fn insert_ranked(r: &mut Vec<(String, i128)>, name: String, key: i128) -> (p: usize)
    requires
        is_ranked(old(r)@),
        forall|i: int| 0 <= i < old(r)@.len() ==> (#[trigger] old(r)@[i]).0@ != name@,
    ensures
        p <= old(r)@.len(),
        final(r)@ == old(r)@.insert(p as int, (name, key)),
        is_ranked(final(r)@),
{
    let mut p: usize = 0;
    while p < r.len() && !rank_before(key, &name, r[p].1, &r[p].0)
        invariant
            p <= r@.len(),
            forall|q: int| 0 <= q < p ==> ranks_before(#[trigger] r@[q].1 as int, r@[q].0@, key as int, name@),
            forall|i: int| 0 <= i < r@.len() ==> (#[trigger] r@[i]).0@ != name@,
        decreases r@.len() - p,
    {
        proof {
            lemma_name_lt_total(r@[p as int].0@, name@);
        }
        p += 1;
    }
    let ghost before = r@;
    proof {
        assert forall|q: int| p <= q < before.len() implies ranks_before(key as int, name@, #[trigger] before[q].1 as int, before[q].0@) by {
            if q > p {
                assert(ranks_before(before[p as int].1 as int, before[p as int].0@, before[q].1 as int, before[q].0@));
                if before[p as int].1 == before[q].1 && key == before[p as int].1 {
                    lemma_name_lt_transitive(name@, before[p as int].0@, before[q].0@);
                }
            }
        }
    }
    r.insert(p, (name, key));
    proof {
        assert forall|i: int, k: int| 0 <= i < k < r@.len() implies ranks_before(#[trigger] r@[i].1 as int, r@[i].0@, #[trigger] r@[k].1 as int, r@[k].0@) by {
            if k < p {
                assert(r@[i] == before[i] && r@[k] == before[k]);
            } else if k == p {
                assert(r@[i] == before[i]);
            } else if i < p {
                assert(r@[i] == before[i] && r@[k] == before[k - 1]);
                assert(ranks_before(before[i].1 as int, before[i].0@, key as int, name@));
                assert(ranks_before(key as int, name@, before[k - 1].1 as int, before[k - 1].0@));
                if before[i].1 == key && key == before[k - 1].1 {
                    lemma_name_lt_transitive(before[i].0@, name@, before[k - 1].0@);
                }
            } else if i == p {
                assert(r@[k] == before[k - 1]);
            } else {
                assert(r@[i] == before[i - 1] && r@[k] == before[k - 1]);
            }
        }
    }
    p
}

/// The pairs of `entries`, largest key first and equal keys by name.
fn rank(entries: &Vec<(String, i128)>) -> (r: Vec<(String, i128)>)
    requires
        distinct_names(entries@),
    ensures
        r@.len() == entries@.len(),
        forall|i: int| 0 <= i < r@.len() ==> pair_among(#[trigger] r@[i], entries@, entries@.len() as int),
        forall|j: int| 0 <= j < entries@.len() ==> pair_among(#[trigger] entries@[j], r@, r@.len() as int),
        is_ranked(r@),
{
    let mut r: Vec<(String, i128)> = Vec::new();
    let mut t: usize = 0;
    while t < entries.len()
        invariant
            t <= entries@.len(),
            r@.len() == t,
            distinct_names(entries@),
            forall|i: int| 0 <= i < r@.len() ==> pair_among(#[trigger] r@[i], entries@, t as int),
            forall|j: int| 0 <= j < t ==> pair_among(#[trigger] entries@[j], r@, r@.len() as int),
            is_ranked(r@),
        decreases entries@.len() - t,
    {
        let name = entries[t].0.clone();
        let key = entries[t].1;
        assert forall|i: int| 0 <= i < r@.len() implies (#[trigger] r@[i]).0@ != name@ by {
            assert(pair_among(r@[i], entries@, t as int));
            let j = choose|j: int| 0 <= j < t && #[trigger] entries@[j].0@ == r@[i].0@ && entries@[j].1 == r@[i].1;
            assert(entries@[j].0@ != entries@[t as int].0@);
        }
        let ghost before = r@;
        let p = insert_ranked(&mut r, name, key);
        proof {
            assert forall|i: int| 0 <= i < r@.len() implies pair_among(#[trigger] r@[i], entries@, t + 1) by {
                if i < p {
                    assert(r@[i] == before[i]);
                    assert(pair_among(before[i], entries@, t as int));
                } else if i == p {
                    assert(entries@[t as int].0@ == r@[i].0@);
                } else {
                    assert(r@[i] == before[i - 1]);
                    assert(pair_among(before[i - 1], entries@, t as int));
                }
            }
            assert forall|j: int| 0 <= j < t + 1 implies pair_among(#[trigger] entries@[j], r@, r@.len() as int) by {
                if j == t {
                    assert(r@[p as int].0@ == entries@[j].0@);
                } else {
                    assert(pair_among(entries@[j], before, before.len() as int));
                    let i = choose|i: int| 0 <= i < before.len() && #[trigger] before[i].0@ == entries@[j].0@ && before[i].1 == entries@[j].1;
                    if i < p {
                        assert(r@[i] == before[i]);
                    } else {
                        assert(r@[i + 1] == before[i]);
                    }
                }
            }
        }
        t += 1;
    }
    r
}

/// `t` brought into the range of `i64`.
pub open spec fn clamp_i64(t: int) -> int {
    if t > i64::MAX {
        i64::MAX as int
    } else if t < i64::MIN {
        i64::MIN as int
    } else {
        t
    }
}

/// `v` holds one rate for each item of the `accepted` snapshots: its total
/// over them and their number, largest total first, equal totals by name.
pub open spec fn is_rate_list(v: Seq<InventoryRate>, accepted: Seq<InventoryReport>) -> bool {
    let items = flat_items(accepted);
    &&& forall|i: int|
        0 <= i < v.len() ==> (#[trigger] v[i]).reports == accepted.len() && v[i].total == items_total(
            items,
            v[i].name@,
        ) && has_name(items, v[i].name@)
    &&& forall|n: Seq<char>| has_name(items, n) ==> exists|i: int| 0 <= i < v.len() && (#[trigger] v[i]).name@ == n
    &&& forall|i: int, k: int|
        0 <= i < k < v.len() ==> ranks_before(
            (#[trigger] v[i]).total as int,
            v[i].name@,
            (#[trigger] v[k]).total as int,
            v[k].name@,
        )
}

/// `v` holds one count for each item of `report`, the sum over its slots
/// (brought into the range of `i64`), largest count first, equal counts by
/// name.
pub open spec fn is_count_list(v: Seq<InventoryItemCount>, report: InventoryReport) -> bool {
    let items = report.inventory@;
    &&& forall|i: int|
        0 <= i < v.len() ==> (#[trigger] v[i]).count == clamp_i64(items_total(items, v[i].name@))
            && has_name(items, v[i].name@)
    &&& forall|n: Seq<char>| has_name(items, n) ==> exists|i: int| 0 <= i < v.len() && (#[trigger] v[i]).name@ == n
    &&& forall|i: int, k: int|
        0 <= i < k < v.len() ==> ranks_before(
            (#[trigger] v[i]).count as int,
            v[i].name@,
            (#[trigger] v[k]).count as int,
            v[k].name@,
        )
}

/// `t` brought into the range of `i64`.
fn clamp_to_i64(t: i128) -> (r: i64)
    ensures
        r == clamp_i64(t as int),
{
    if t > i64::MAX as i128 {
        i64::MAX
    } else if t < i64::MIN as i128 {
        i64::MIN
    } else {
        t as i64
    }
}

/// The rates of the ranked totals, each over `reports` snapshots.
fn rate_list(totals: Vec<(String, i128)>, reports: usize, Ghost(accepted): Ghost<Seq<InventoryReport>>) -> (v: Vec<InventoryRate>)
    requires
        reports == accepted.len(),
        totals_of(totals@, flat_items(accepted)),
    ensures
        is_rate_list(v@, accepted),
{
    let ghost items = flat_items(accepted);
    let ranked = rank(&totals);
    let mut v: Vec<InventoryRate> = Vec::new();
    let mut i: usize = 0;
    while i < ranked.len()
        invariant
            i <= ranked@.len(),
            v@.len() == i,
            forall|q: int|
                0 <= q < i ==> (#[trigger] v@[q]).name@ == ranked@[q].0@ && v@[q].total == ranked@[q].1
                    && v@[q].reports == reports,
        decreases ranked@.len() - i,
    {
        v.push(InventoryRate { name: ranked[i].0.clone(), total: ranked[i].1, reports });
        i += 1;
    }
    proof {
        assert forall|q: int| 0 <= q < v@.len() implies (#[trigger] v@[q]).reports == accepted.len()
            && v@[q].total == items_total(items, v@[q].name@) && has_name(items, v@[q].name@) by {
            assert(pair_among(ranked@[q], totals@, totals@.len() as int));
            let j = choose|j: int| 0 <= j < totals@.len() && #[trigger] totals@[j].0@ == ranked@[q].0@ && totals@[j].1 == ranked@[q].1;
            assert(totals@[j].1 == items_total(items, totals@[j].0@));
        }
        assert forall|n: Seq<char>| has_name(items, n) implies exists|q: int| 0 <= q < v@.len() && (#[trigger] v@[q]).name@ == n by {
            let j = choose|j: int| 0 <= j < totals@.len() && #[trigger] totals@[j].0@ == n;
            assert(pair_among(totals@[j], ranked@, ranked@.len() as int));
            let q = choose|q: int| 0 <= q < ranked@.len() && #[trigger] ranked@[q].0@ == totals@[j].0@ && ranked@[q].1 == totals@[j].1;
            assert(v@[q].name@ == n);
        }
        assert forall|a: int, b: int| 0 <= a < b < v@.len() implies ranks_before(
            (#[trigger] v@[a]).total as int, v@[a].name@, (#[trigger] v@[b]).total as int, v@[b].name@) by {
            assert(ranks_before(ranked@[a].1 as int, ranked@[a].0@, ranked@[b].1 as int, ranked@[b].0@));
        }
    }
    v
}

/// The counts of the items of one storage snapshot, from its totals.
fn count_list(totals: Vec<(String, i128)>, Ghost(report): Ghost<InventoryReport>) -> (v: Vec<InventoryItemCount>)
    requires
        totals_of(totals@, report.inventory@),
    ensures
        is_count_list(v@, report),
{
    let ghost items = report.inventory@;
    let mut keyed: Vec<(String, i128)> = Vec::new();
    let mut j: usize = 0;
    while j < totals.len()
        invariant
            j <= totals@.len(),
            keyed@.len() == j,
            totals_of(totals@, items),
            forall|q: int|
                0 <= q < j ==> (#[trigger] keyed@[q]).0@ == totals@[q].0@ && keyed@[q].1 == clamp_i64(
                    totals@[q].1 as int,
                ),
        decreases totals@.len() - j,
    {
        keyed.push((totals[j].0.clone(), clamp_to_i64(totals[j].1) as i128));
        j += 1;
    }
    assert forall|a: int, b: int| 0 <= a < b < keyed@.len() implies #[trigger] keyed@[a].0@ != #[trigger] keyed@[b].0@ by {
        assert(totals@[a].0@ != totals@[b].0@);
    }
    let ranked = rank(&keyed);
    let mut v: Vec<InventoryItemCount> = Vec::new();
    let mut i: usize = 0;
    while i < ranked.len()
        invariant
            i <= ranked@.len(),
            v@.len() == i,
            forall|q: int| 0 <= q < ranked@.len() ==> pair_among(#[trigger] ranked@[q], keyed@, keyed@.len() as int),
            forall|q: int| 0 <= q < keyed@.len() ==> i64::MIN <= (#[trigger] keyed@[q]).1 <= i64::MAX,
            forall|q: int|
                0 <= q < i ==> (#[trigger] v@[q]).name@ == ranked@[q].0@ && v@[q].count == ranked@[q].1,
        decreases ranked@.len() - i,
    {
        assert(pair_among(ranked@[i as int], keyed@, keyed@.len() as int));
        let ghost jj = choose|j: int| 0 <= j < keyed@.len() && #[trigger] keyed@[j].0@ == ranked@[i as int].0@ && keyed@[j].1 == ranked@[i as int].1;
        assert(i64::MIN <= keyed@[jj].1 <= i64::MAX);
        v.push(InventoryItemCount { name: ranked[i].0.clone(), count: ranked[i].1 as i64 });
        i += 1;
    }
    proof {
        assert forall|q: int| 0 <= q < v@.len() implies (#[trigger] v@[q]).count == clamp_i64(items_total(items, v@[q].name@))
            && has_name(items, v@[q].name@) by {
            assert(pair_among(ranked@[q], keyed@, keyed@.len() as int));
            let j = choose|j: int| 0 <= j < keyed@.len() && #[trigger] keyed@[j].0@ == ranked@[q].0@ && keyed@[j].1 == ranked@[q].1;
            assert(totals@[j].1 == items_total(items, totals@[j].0@));
        }
        assert forall|n: Seq<char>| has_name(items, n) implies exists|q: int| 0 <= q < v@.len() && (#[trigger] v@[q]).name@ == n by {
            let j = choose|j: int| 0 <= j < totals@.len() && #[trigger] totals@[j].0@ == n;
            assert(keyed@[j].0@ == n);
            assert(pair_among(keyed@[j], ranked@, ranked@.len() as int));
            let q = choose|q: int| 0 <= q < ranked@.len() && #[trigger] ranked@[q].0@ == keyed@[j].0@ && ranked@[q].1 == keyed@[j].1;
            assert(v@[q].name@ == n);
        }
        assert forall|a: int, b: int| 0 <= a < b < v@.len() implies ranks_before(
            (#[trigger] v@[a]).count as int, v@[a].name@, (#[trigger] v@[b]).count as int, v@[b].name@) by {
            assert(ranks_before(ranked@[a].1 as int, ranked@[a].0@, ranked@[b].1 as int, ranked@[b].0@));
        }
    }
    v
}

/// How a scan stands: before any match nothing is taken and nothing has
/// matched; a storage snapshot is taken alone and stops the scan.
proof fn lemma_scan_shape(entries: Seq<Entry>, computer_id: i64, now: u64, window: u64)
    ensures
        ({
            let sc = scan(entries, computer_id, now, window);
            &&& sc.kind is None ==> !sc.stopped && sc.accepted.len() == 0 && forall|j: int|
                0 <= j < entries.len() ==> !is_match(#[trigger] entries[j], computer_id, now, window)
            &&& sc.kind matches Some(InventoryType::Storage) ==> sc.stopped && sc.accepted.len() == 1
        }),
    decreases entries.len(),
{
    if entries.len() > 0 {
        let rest = entries.drop_last();
        lemma_scan_shape(rest, computer_id, now, window);
        let before = scan(rest, computer_id, now, window);
        let e = entries.last();
        assert(entries.last() == entries[entries.len() - 1]);
        if before.kind is None {
            if is_match(e, computer_id, now, window) {
                assert(scan(entries, computer_id, now, window).accepted =~= seq![e.1]);
            } else {
                assert forall|j: int| 0 <= j < entries.len() implies !is_match(#[trigger] entries[j], computer_id, now, window) by {
                    if j < entries.len() - 1 {
                        assert(entries[j] == rest[j]);
                    }
                }
            }
        }
    }
}

/// When the newest snapshot of a computer in the window is of a storage,
/// the scan takes that snapshot alone: a storage report shows the newest
/// matching snapshot only.
pub proof fn lemma_storage_newest(entries: Seq<Entry>, computer_id: i64, now: u64, window: u64)
    requires
        scan(entries, computer_id, now, window).kind matches Some(InventoryType::Storage),
    ensures
        exists|k: int|
            0 <= k < entries.len() && is_match(entries[k], computer_id, now, window) && (forall|j: int|
                0 <= j < k ==> !is_match(#[trigger] entries[j], computer_id, now, window)) && scan(
                entries,
                computer_id,
                now,
                window,
            ).accepted == seq![entries[k].1],
    decreases entries.len(),
{
    let rest = entries.drop_last();
    let before = scan(rest, computer_id, now, window);
    lemma_scan_shape(rest, computer_id, now, window);
    if before.kind is None {
        let k = entries.len() - 1;
        assert forall|j: int| 0 <= j < k implies !is_match(#[trigger] entries[j], computer_id, now, window) by {
            assert(entries[j] == rest[j]);
        }
    } else {
        lemma_storage_newest(rest, computer_id, now, window);
        let k = choose|k: int|
            0 <= k < rest.len() && is_match(rest[k], computer_id, now, window) && (forall|j: int|
                0 <= j < k ==> !is_match(#[trigger] rest[j], computer_id, now, window)) && scan(
                rest,
                computer_id,
                now,
                window,
            ).accepted == seq![rest[k].1];
        assert(entries[k] == rest[k]);
        assert forall|j: int| 0 <= j < k implies !is_match(#[trigger] entries[j], computer_id, now, window) by {
            assert(entries[j] == rest[j]);
        }
    }
}

/// The total of a name over two runs of slots is the sum of their totals.
proof fn lemma_items_total_append(a: Seq<InventoryItem>, b: Seq<InventoryItem>, name: Seq<char>)
    ensures
        items_total(a + b, name) == items_total(a, name) + items_total(b, name),
    decreases b.len(),
{
    if b.len() == 0 {
        assert(a + b =~= a);
    } else {
        lemma_items_total_append(a, b.drop_last(), name);
        assert((a + b).drop_last() =~= a + b.drop_last());
        assert((a + b).last() == b.last());
    }
}

/// If each of `accepted` holds `c` of `name` in all, they hold
/// `accepted.len() * c` together.
proof fn lemma_steady_total(accepted: Seq<InventoryReport>, name: Seq<char>, c: int)
    requires
        forall|i: int| 0 <= i < accepted.len() ==> items_total((#[trigger] accepted[i]).inventory@, name) == c,
    ensures
        items_total(flat_items(accepted), name) == accepted.len() * c,
    decreases accepted.len(),
{
    if accepted.len() > 0 {
        let rest = accepted.drop_last();
        assert forall|i: int| 0 <= i < rest.len() implies items_total((#[trigger] rest[i]).inventory@, name) == c by {
            assert(rest[i] == accepted[i]);
        }
        lemma_steady_total(rest, name, c);
        lemma_items_total_append(flat_items(rest), accepted.last().inventory@, name);
        assert(accepted.last() == accepted[accepted.len() - 1]);
        assert((rest.len() + 1) * c == rest.len() * c + c) by (nonlinear_arith);
    }
}

/// When every snapshot of a rate report holds `c` of item `name`, the item's
/// total is `c` times the number of snapshots, so its rate is
/// `c / SECONDS_PER_REPORT` items a second.
pub proof fn lemma_steady_rate(v: Seq<InventoryRate>, accepted: Seq<InventoryReport>, name: Seq<char>, c: int, i: int)
    requires
        is_rate_list(v, accepted),
        0 <= i < v.len(),
        v[i].name@ == name,
        forall|j: int| 0 <= j < accepted.len() ==> items_total((#[trigger] accepted[j]).inventory@, name) == c,
    ensures
        v[i].total == v[i].reports * c,
{
    lemma_steady_total(accepted, name, c);
}

} // verus!
