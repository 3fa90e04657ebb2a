//! The rider queue at the start: riders line up once each, the device
//! at the start calls the next one, and the called rider's run is tracked
//! until it finishes.

use vstd::prelude::*;

verus! {

/// A rider waiting in line, by user id and tag.
pub type Entry = (i64, Seq<char>);

/// The rider called to the start, with whether their run has started.
pub type Called = (i64, Seq<char>, bool);

/// What a queue holds: the line in order of arrival, and the called rider.
pub struct QueView {
    pub line: Seq<Entry>,
    pub current: Option<Called>,
}

/// The line after a rider asks to join: a rider already waiting under the
/// same id and tag is not added twice.
pub open spec fn joined(line: Seq<Entry>, entry: Entry) -> Seq<Entry> {
    if line.contains(entry) {
        line
    } else {
        line.push(entry)
    }
}

/// The indices below `n` of the entries with user id `id`, ascending.
pub open spec fn indices_below(line: Seq<Entry>, id: i64, n: int) -> Seq<int>
    decreases n,
{
    if n <= 0 {
        Seq::empty()
    } else if line[n - 1].0 == id {
        indices_below(line, id, n - 1).push(n - 1)
    } else {
        indices_below(line, id, n - 1)
    }
}

/// The indices of all entries with user id `id`, ascending.
pub open spec fn indices_of(line: Seq<Entry>, id: i64) -> Seq<int> {
    indices_below(line, id, line.len() as int)
}

/// The line after removing, one after the other, the positions `idx`,
/// each counted in the line as it is at that moment.
pub open spec fn removed_in_turn(line: Seq<Entry>, idx: Seq<int>) -> Seq<Entry>
    decreases idx.len(),
{
    if idx.len() == 0 {
        line
    } else {
        removed_in_turn(line, idx.drop_last()).remove(idx.last())
    }
}

/// Removing the positions `idx` in turn stays inside the shrinking line.
pub open spec fn removal_in_bounds(len: nat, idx: Seq<int>) -> bool {
    forall|k: int| 0 <= k < idx.len() ==> 0 <= #[trigger] idx[k] < len - k
}

/// The entries of the line whose user id is not `id`, in order.
pub open spec fn without_id(line: Seq<Entry>, id: i64) -> Seq<Entry> {
    line.filter(other_than(id))
}

/// Whether an entry belongs to a rider other than user id `id`.
pub open spec fn other_than(id: i64) -> spec_fn(Entry) -> bool {
    |e: Entry| e.0 != id
}

/// The matching positions below `n` are ascending, below `n`, and are
/// exactly the positions below `n` whose entry has user id `id`.
proof fn lemma_indices_below(line: Seq<Entry>, id: i64, n: int)
    requires
        0 <= n <= line.len(),
    ensures
        indices_below(line, id, n).len() <= n,
        forall|k: int| 0 <= k < indices_below(line, id, n).len() ==>
            0 <= #[trigger] indices_below(line, id, n)[k] < n,
        forall|k1: int, k2: int| 0 <= k1 < k2 < indices_below(line, id, n).len() ==>
            indices_below(line, id, n)[k1] < indices_below(line, id, n)[k2],
        forall|i: int| 0 <= i < n ==>
            (line[i].0 == id <==> #[trigger] indices_below(line, id, n).contains(i)),
    decreases n,
{
    if n > 0 {
        lemma_indices_below(line, id, n - 1);
        let prev = indices_below(line, id, n - 1);
        if line[n - 1].0 == id {
            let cur = prev.push(n - 1);
            assert forall|i: int| 0 <= i < n implies (line[i].0 == id <==> cur.contains(i)) by {
                if i < n - 1 {
                    if prev.contains(i) {
                        let k = choose|k: int| 0 <= k < prev.len() && prev[k] == i;
                        assert(cur[k] == i);
                    }
                    if cur.contains(i) {
                        let k = choose|k: int| 0 <= k < cur.len() && cur[k] == i;
                        assert(k < prev.len());
                        assert(prev[k] == i);
                    }
                } else {
                    assert(cur[cur.len() - 1] == i);
                }
            }
        } else {
            assert forall|i: int| 0 <= i < n implies (line[i].0 == id <==> prev.contains(i)) by {
                if i == n - 1 {
                    if prev.contains(i) {
                        let k = choose|k: int| 0 <= k < prev.len() && prev[k] == i;
                    }
                }
            }
        }
    }
}

proof fn lemma_removed_len(line: Seq<Entry>, idx: Seq<int>)
    requires
        removal_in_bounds(line.len(), idx),
    ensures
        removed_in_turn(line, idx).len() == line.len() - idx.len(),
    decreases idx.len(),
{
    if idx.len() > 0 {
        lemma_removed_len(line, idx.drop_last());
        assert(idx[idx.len() - 1] < line.len() - (idx.len() - 1));
    }
}

proof fn lemma_removed_no_duplicates(line: Seq<Entry>, idx: Seq<int>)
    requires
        line.no_duplicates(),
        removal_in_bounds(line.len(), idx),
    ensures
        removed_in_turn(line, idx).no_duplicates(),
    decreases idx.len(),
{
    if idx.len() > 0 {
        let prefix = idx.drop_last();
        lemma_removed_no_duplicates(line, prefix);
        lemma_removed_len(line, prefix);
        let before = removed_in_turn(line, prefix);
        let at = idx.last();
        assert(at < line.len() - (idx.len() - 1));
        let after = before.remove(at);
        assert forall|a: int, b: int|
            0 <= a < after.len() && 0 <= b < after.len() && a != b implies after[a] != after[b] by {
            let a0 = if a < at { a } else { a + 1 };
            let b0 = if b < at { b } else { b + 1 };
            assert(after[a] == before[a0]);
            assert(after[b] == before[b0]);
        }
    }
}

/// The status line shown for the called rider.
pub open spec fn status_text(started: bool) -> Seq<char> {
    if started {
        "currently racing"@
    } else {
        "ready to start"@
    }
}

/// What the queue page shows to a visitor.
#[derive(Debug)]
pub struct QuePage {
    /// Whether the visitor is waiting in line.
    pub qued: bool,
    /// The tags of the waiting riders, in order.
    pub tags: Vec<String>,
    /// The called rider's tag and status line.
    pub current: Option<(String, &'static str)>,
}

#[derive(Debug)]
pub struct RiderQue {
    que: Vec<(i64, String)>,
    current: Option<(i64, String, bool)>,
}

impl View for RiderQue {
    type V = QueView;

    closed spec fn view(&self) -> QueView {
        QueView {
            line: self.que@.map_values(|e: (i64, String)| (e.0, e.1@)),
            current: match self.current {
                Some(c) => Some((c.0, c.1@, c.2)),
                None => None,
            },
        }
    }
}

impl RiderQue {
    /// No rider waits twice under the same id and tag.
    pub open spec fn wf(&self) -> bool {
        self@.line.no_duplicates()
    }

    pub fn new() -> (q: Self)
        ensures
            q.wf(),
            q@.line == Seq::<Entry>::empty(),
            q@.current is None,
    {
        let q = RiderQue { que: Vec::with_capacity(20), current: None };
        assert(q@.line =~= Seq::<Entry>::empty());
        q
    }

    /// Puts a rider at the end of the line, unless they already wait there
    /// under the same id and tag.
    pub fn add(&mut self, id: i64, tag: String)
        requires
            old(self).wf(),
        ensures
            final(self).wf(),
            final(self)@.line == joined(old(self)@.line, (id, tag@)),
            old(self)@.line.contains((id, tag@)) ==> final(self)@.line == old(self)@.line,
            !old(self)@.line.contains((id, tag@)) ==> final(self)@.line == old(self)@.line.push(
                (id, tag@),
            ),
            final(self)@.current == old(self)@.current,
    {
        let ghost entry: Entry = (id, tag@);
        let ghost line = self@.line;
        let n = self.que.len();
        let mut i: usize = 0;
        let mut found = false;
        while i < n
            invariant
                n == self.que.len(),
                line == self@.line,
                entry == (id, tag@),
                i <= n,
                found <==> exists|k: int| 0 <= k < i && line[k] == entry,
            decreases n - i,
        {
            assert(line[i as int] == (self.que@[i as int].0, self.que@[i as int].1@));
            let eid = self.que[i].0;
            let etag = &self.que[i].1;
            let same_tag = *etag == tag;
            assert(same_tag == (self.que@[i as int].1@ == tag@));
            let same = eid == id && same_tag;
            if same {
                assert(line[i as int] == entry);
                found = true;
            }
            assert(found <==> exists|k: int| 0 <= k < i + 1 && line[k] == entry) by {
                if !same {
                    assert(line[i as int] != entry);
                }
            }
            i = i + 1;
        }
        if !found {
            self.que.push((id, tag));
            assert(self@.line =~= line.push(entry));
            assert(!line.contains(entry));
            assert forall|a: int, b: int|
                0 <= a < self@.line.len() && 0 <= b < self@.line.len() && a != b implies
                self@.line[a] != self@.line[b] by {
                if a < line.len() && b < line.len() {
                } else if a == line.len() {
                    assert(line[b] == self@.line[b]);
                } else {
                    assert(line[a] == self@.line[a]);
                }
            }
        } else {
            let ghost k = choose|k: int| 0 <= k < i && line[k] == entry;
            assert(line.contains(entry));
        }
    }

    /// Calls the rider who has waited longest to the start: they leave the
    /// line and become the current rider, not yet started.
    pub fn pop(&mut self) -> (called: Option<(&i64, &String)>)
        requires
            old(self).wf(),
        ensures
            final(self).wf(),
            old(self)@.line.len() == 0 ==> {
                &&& called is None
                &&& final(self)@.line == old(self)@.line
                &&& final(self)@.current == old(self)@.current
            },
            old(self)@.line.len() > 0 ==> {
                &&& called matches Some((id, tag))
                &&& *id == old(self)@.line[0].0
                &&& tag@ == old(self)@.line[0].1
                &&& final(self)@.line == old(self)@.line.drop_first()
                &&& final(self)@.current == Some(
                    (old(self)@.line[0].0, old(self)@.line[0].1, false),
                )
            },
    {
        if !self.que.is_empty() {
            let ghost line = self@.line;
            let (id, tag) = self.que.remove(0);
            self.current = Some((id, tag, false));
            assert(self@.line =~= line.drop_first());
            assert forall|a: int, b: int|
                0 <= a < self@.line.len() && 0 <= b < self@.line.len() && a != b implies
                self@.line[a] != self@.line[b] by {
                assert(self@.line[a] == line[a + 1]);
                assert(self@.line[b] == line[b + 1]);
            }
            let (id, tag, _) = self.current.as_ref().unwrap();
            Some((id, tag))
        } else {
            None
        }
    }

    /// Whether removing the riders with user id `id` stays inside the line:
    /// each entry with that id is removed by the position it had before any
    /// was removed, so a second entry with the same id may lie beyond the
    /// shortened line.
    pub fn removal_stays_in_bounds(&self, id: &i64) -> (ok: bool)
        ensures
            ok == removal_in_bounds(self@.line.len(), indices_of(self@.line, *id)),
    {
        let deletes = self.indices_of(id);
        let len = self.que.len();
        proof {
            lemma_indices_below(self@.line, *id, self@.line.len() as int);
        }
        let mut k: usize = 0;
        while k < deletes.len()
            invariant
                len == self@.line.len(),
                deletes@.len() <= len,
                deletes@.len() == indices_of(self@.line, *id).len(),
                forall|j: int| 0 <= j < deletes@.len() ==>
                    deletes@[j] as int == #[trigger] indices_of(self@.line, *id)[j],
                k <= deletes@.len(),
                forall|j: int| 0 <= j < k ==> 0 <= #[trigger] indices_of(self@.line, *id)[j] < len - j,
            decreases deletes@.len() - k,
        {
            if deletes[k] >= len - k {
                assert(!(indices_of(self@.line, *id)[k as int] < len - k));
                return false;
            }
            k = k + 1;
        }
        true
    }

    /// The positions of the entries with user id `id`, ascending.
    fn indices_of(&self, id: &i64) -> (deletes: Vec<usize>)
        ensures
            deletes@.len() == indices_of(self@.line, *id).len(),
            forall|j: int| 0 <= j < deletes@.len() ==>
                deletes@[j] as int == #[trigger] indices_of(self@.line, *id)[j],
    {
        let ghost line = self@.line;
        let mut deletes: Vec<usize> = Vec::new();
        let n = self.que.len();
        let mut i: usize = 0;
        while i < n
            invariant
                n == self.que.len(),
                line == self@.line,
                i <= n,
                deletes@.len() == indices_below(line, *id, i as int).len(),
                forall|j: int| 0 <= j < deletes@.len() ==>
                    deletes@[j] as int == #[trigger] indices_below(line, *id, i as int)[j],
            decreases n - i,
        {
            assert(line[i as int].0 == self.que@[i as int].0);
            if self.que[i].0 == *id {
                deletes.push(i);
            }
            i = i + 1;
        }
        deletes
    }

    /// Takes every rider with user id `id` out of the line. Each entry with
    /// that id is removed, one after the other, by the position it had
    /// before the first removal; with at most one such entry this removes
    /// exactly the riders with that id (see `lemma_remove_takes_rider_out`).
    pub fn remove(&mut self, id: &i64)
        requires
            old(self).wf(),
            removal_in_bounds(old(self)@.line.len(), indices_of(old(self)@.line, *id)),
        ensures
            final(self).wf(),
            final(self)@.line == removed_in_turn(old(self)@.line, indices_of(old(self)@.line, *id)),
            final(self)@.current == old(self)@.current,
    {
        let ghost line = self@.line;
        let ghost idx = indices_of(line, *id);
        let deletes = self.indices_of(id);
        let mut k: usize = 0;
        proof {
            assert(idx.take(0) =~= Seq::<int>::empty());
        }
        while k < deletes.len()
            invariant
                line.no_duplicates(),
                idx == indices_of(line, *id),
                removal_in_bounds(line.len(), idx),
                deletes@.len() == idx.len(),
                forall|j: int| 0 <= j < deletes@.len() ==> deletes@[j] as int == #[trigger] idx[j],
                k <= deletes@.len(),
                self@.line == removed_in_turn(line, idx.take(k as int)),
                self@.current == old(self)@.current,
            decreases deletes@.len() - k,
        {
            proof {
                lemma_removed_len(line, idx.take(k as int));
                assert(idx[k as int] < line.len() - k);
                assert(idx.take(k + 1).drop_last() =~= idx.take(k as int));
            }
            let at = deletes[k];
            let ghost before = self@.line;
            self.que.remove(at);
            proof {
                assert(self@.line =~= before.remove(at as int));
            }
            k = k + 1;
        }
        proof {
            assert(idx.take(k as int) =~= idx);
            lemma_removed_no_duplicates(line, idx);
        }
    }

    /// Marks whether the called rider's run has started; without a called
    /// rider nothing changes.
    pub fn set_status(&mut self, status: bool)
        requires
            old(self).wf(),
        ensures
            final(self).wf(),
            final(self)@.line == old(self)@.line,
            final(self)@.current == match old(self)@.current {
                Some(c) => Some((c.0, c.1, status)),
                None => None,
            },
    {
        if let Some((_, _, s)) = &mut self.current {
            *s = status;
        }
    }

    /// Ends the called rider's turn.
    pub fn remove_current(&mut self)
        requires
            old(self).wf(),
        ensures
            final(self).wf(),
            final(self)@.line == old(self)@.line,
            final(self)@.current is None,
    {
        self.current = None;
    }

    /// What the queue page shows to the visitor with user id `viewer`
    /// (`None` for a visitor who is not logged in): whether they wait in
    /// line, the waiting riders' tags in order, and the called rider's tag
    /// with the status of their run.
    pub fn page(&self, viewer: Option<i64>) -> (page: QuePage)
        ensures
            page.qued == (viewer matches Some(v) && exists|k: int|
                0 <= k < self@.line.len() && #[trigger] self@.line[k].0 == v),
            page.tags@.len() == self@.line.len(),
            forall|k: int| 0 <= k < self@.line.len() ==> page.tags@[k]@ == #[trigger] self@.line[k].1,
            match (page.current, self@.current) {
                (Some((tag, status)), Some(called)) => tag@ == called.1 && status@ == status_text(
                    called.2,
                ),
                (None, None) => true,
                _ => false,
            },
    {
        let ghost line = self@.line;
        let n = self.que.len();
        let mut tags: Vec<String> = Vec::new();
        let mut qued = false;
        let mut i: usize = 0;
        while i < n
            invariant
                n == self.que.len(),
                line == self@.line,
                i <= n,
                tags@.len() == i,
                forall|k: int| 0 <= k < i ==> tags@[k]@ == #[trigger] line[k].1,
                qued == (viewer matches Some(v) && exists|k: int| 0 <= k < i && #[trigger] line[k].0 == v),
            decreases n - i,
        {
            assert(line[i as int] == (self.que@[i as int].0, self.que@[i as int].1@));
            tags.push(self.que[i].1.clone());
            let hit = match viewer {
                Some(v) => self.que[i].0 == v,
                None => false,
            };
            assert(hit <==> (viewer matches Some(v) && line[i as int].0 == v));
            if hit {
                qued = true;
            }
            assert(qued == (viewer matches Some(v) && exists|k: int|
                0 <= k < i + 1 && #[trigger] line[k].0 == v)) by {
                if let Some(v) = viewer {
                    if line[i as int].0 == v {
                        assert(0 <= i < i + 1 && line[i as int].0 == v);
                    } else {
                        assert forall|k: int| 0 <= k < i + 1 && #[trigger] line[k].0 == v implies k < i by {}
                    }
                }
            }
            i = i + 1;
        }
        let current = match &self.current {
            Some((_, tag, status)) => {
                let text = if *status {
                    "currently racing"
                } else {
                    "ready to start"
                };
                Some((tag.clone(), text))
            },
            None => None,
        };
        QuePage { qued, tags, current }
    }
}

} // verus!

verus! {

/// The line after the riders `es` ask to join one after the other.
pub open spec fn joined_all(line: Seq<Entry>, es: Seq<Entry>) -> Seq<Entry>
    decreases es.len(),
{
    if es.len() == 0 {
        line
    } else {
        joined(joined_all(line, es.drop_last()), es.last())
    }
}

/// A rider joins the line at most once: asking again changes nothing, the
/// rider is then in line, and the line still holds no entry twice.
pub proof fn lemma_join_once(line: Seq<Entry>, entry: Entry)
    requires
        line.no_duplicates(),
    ensures
        joined(line, entry).no_duplicates(),
        joined(line, entry).contains(entry),
        joined(joined(line, entry), entry) == joined(line, entry),
{
    let after = joined(line, entry);
    if !line.contains(entry) {
        assert(after[line.len() as int] == entry);
        assert forall|a: int, b: int|
            0 <= a < after.len() && 0 <= b < after.len() && a != b implies after[a] != after[b] by {
            if a == line.len() {
                assert(after[b] == line[b]);
            } else if b == line.len() {
                assert(after[a] == line[a]);
            }
        }
    }
}

/// Joining keeps everyone's place: the riders already waiting stay in front,
/// in their order; a rider who already waits keeps their place and nothing
/// changes; a new rider goes to the back.
pub proof fn lemma_join_keeps_places(line: Seq<Entry>, entry: Entry)
    ensures
        joined(line, entry).take(line.len() as int) == line,
        line.contains(entry) ==> joined(line, entry) == line,
        !line.contains(entry) ==> joined(line, entry) == line.push(entry),
        joined(line, entry).len() == if line.contains(entry) {
            line.len()
        } else {
            line.len() + 1
        },
{
    assert(joined(line, entry).take(line.len() as int) =~= line);
}

/// First come, first called: joining never changes who is at the front of
/// a waiting line, and a rider joining an empty line is at the front.
pub proof fn lemma_first_come_first_served(line: Seq<Entry>, entry: Entry)
    ensures
        line.len() > 0 ==> joined(line, entry)[0] == line[0],
        line.len() == 0 ==> joined(line, entry) == seq![entry],
{
    if line.len() == 0 {
        assert(joined(line, entry) =~= seq![entry]);
    }
}

/// Riders who join an empty line one after the other, each once, wait in
/// exactly the order in which they joined, so they are called in that
/// order.
pub proof fn lemma_called_in_order_of_joining(es: Seq<Entry>)
    requires
        es.no_duplicates(),
    ensures
        joined_all(Seq::empty(), es) == es,
    decreases es.len(),
{
    if es.len() > 0 {
        let prefix = es.drop_last();
        assert(prefix.no_duplicates());
        lemma_called_in_order_of_joining(prefix);
        assert(!prefix.contains(es.last())) by {
            if prefix.contains(es.last()) {
                let k = choose|k: int| 0 <= k < prefix.len() && prefix[k] == es.last();
                assert(es[k] == es[es.len() - 1]);
            }
        }
        assert(prefix.push(es.last()) =~= es);
    }
}

/// A rider who has joined is shown as waiting.
pub proof fn lemma_joined_is_waiting(line: Seq<Entry>, id: i64, tag: Seq<char>)
    ensures
        exists|k: int| 0 <= k < joined(line, (id, tag)).len() && #[trigger] joined(line, (id, tag))[k].0 == id,
{
    let after = joined(line, (id, tag));
    if line.contains((id, tag)) {
        let k = choose|k: int| 0 <= k < line.len() && line[k] == (id, tag);
        assert(after[k].0 == id);
    } else {
        assert(after[line.len() as int].0 == id);
    }
}

/// Cancelling takes a rider out of the line: when at most one entry has
/// the rider's id, removing it stays inside the line, leaves every other
/// rider in order, and leaves no entry with that id.
pub proof fn lemma_remove_takes_rider_out(line: Seq<Entry>, id: i64)
    requires
        indices_of(line, id).len() <= 1,
    ensures
        removal_in_bounds(line.len(), indices_of(line, id)),
        removed_in_turn(line, indices_of(line, id)) == without_id(line, id),
        forall|k: int| 0 <= k < without_id(line, id).len() ==> #[trigger] without_id(line, id)[k].0 != id,
{
    let idx = indices_of(line, id);
    lemma_indices_below(line, id, line.len() as int);
    lemma_filter_upto_one(line, id, line.len() as int);
    assert(line.take(line.len() as int) =~= line);
    if idx.len() == 1 {
        assert(idx.drop_last() =~= Seq::<int>::empty());
        assert(removed_in_turn(line, idx.drop_last()) == line);
        assert(removed_in_turn(line, idx) == line.remove(idx[0]));
        assert(line.take(line.len() as int).remove(idx[0]) == line.remove(idx[0]));
    } else {
        assert(removed_in_turn(line, idx) == line);
    }
    let pred = other_than(id);
    assert forall|k: int| 0 <= k < without_id(line, id).len() implies #[trigger] without_id(line, id)[k].0 != id by {
        line.lemma_filter_pred(pred, k);
    }
}

/// With at most one entry of user id `id` among the first `n`, filtering
/// them out of the first `n` entries removes exactly that entry.
proof fn lemma_filter_upto_one(line: Seq<Entry>, id: i64, n: int)
    requires
        0 <= n <= line.len(),
        indices_below(line, id, n).len() <= 1,
    ensures
        indices_below(line, id, n).len() == 0 ==> line.take(n).filter(other_than(id)) == line.take(n),
        indices_below(line, id, n).len() == 1 ==> line.take(n).filter(other_than(id)) == line.take(n).remove(
            indices_below(line, id, n)[0],
        ),
    decreases n,
{
    let pred = other_than(id);
    if n > 0 {
        let prev = indices_below(line, id, n - 1);
        lemma_indices_below(line, id, n - 1);
        if line[n - 1].0 == id {
            assert(prev.len() == 0);
        }
        lemma_filter_upto_one(line, id, n - 1);
        let t = line.take(n);
        assert(t.drop_last() =~= line.take(n - 1));
        reveal(Seq::filter);
        assert(t.filter(pred) == if pred(t.last()) {
            t.drop_last().filter(pred).push(t.last())
        } else {
            t.drop_last().filter(pred)
        });
        if line[n - 1].0 == id {
            assert(t.remove(n - 1) =~= line.take(n - 1));
        } else if prev.len() == 1 {
            assert(prev[0] < n - 1);
            assert(line.take(n - 1).remove(prev[0]).push(line[n - 1]) =~= t.remove(prev[0]));
        } else {
            assert(line.take(n - 1).push(line[n - 1]) =~= t);
        }
    } else {
        reveal(Seq::filter);
        assert(line.take(0).filter(pred) =~= line.take(0));
    }
}

} // verus!
