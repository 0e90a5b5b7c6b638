//! Which inference hosts are currently held to be down, and which host the
//! next request goes to.
//!
//! Time is a plain number handed in by the caller: a reading of a clock that
//! does not run backwards, in any unit, as long as the unavailability window
//! is given in the same unit. Nothing here reads a clock or blocks.

use vstd::prelude::*;
use crate::error::ImageAnalysisError;

verus! {

/// One entry of the unavailability record: `host` was last marked
/// unavailable at time `since`.
pub struct MarkView {
    pub host: Seq<char>,
    pub since: u64,
}

#[derive(Debug)]
struct HostMark {
    host: String,
    since: u64,
}

/// Hosts to send requests to, in order of preference, together with the
/// record of those that recently failed. Concurrent users share one manager
/// behind a lock of their own, held for one call at a time.
#[derive(Debug)]
pub struct LlamaCppHostManager {
    hosts: Vec<String>,
    api_key: Option<String>,
    unavailable_hosts: Vec<HostMark>,
    unavailable_duration: u64,
}

/// Time that has passed at `now` since `since`; zero where `since` lies
/// ahead of `now`.
pub open spec fn elapsed(now: u64, since: u64) -> int {
    if now >= since {
        now - since
    } else {
        0
    }
}

/// Whether a mark made at `since` still counts at `now`: less than `window`
/// has passed.
pub open spec fn in_window(since: u64, now: u64, window: u64) -> bool {
    elapsed(now, since) < window
}

/// Whether the record holds an entry for `host`.
pub open spec fn is_marked(marks: Seq<MarkView>, host: Seq<char>) -> bool {
    exists|i: int| 0 <= i < marks.len() && (#[trigger] marks[i]).host == host
}

/// No host has two entries.
pub open spec fn distinct_hosts(marks: Seq<MarkView>) -> bool {
    forall|i: int, j: int|
        0 <= i < marks.len() && 0 <= j < marks.len() && (#[trigger] marks[i]).host == (
        #[trigger] marks[j]).host ==> i == j
}

/// The record without the entries whose window has run out at `now`; the
/// entries that stay keep their order.
pub open spec fn pruned(marks: Seq<MarkView>, now: u64, window: u64) -> Seq<MarkView>
    decreases marks.len(),
{
    if marks.len() == 0 {
        Seq::empty()
    } else {
        let before = pruned(marks.drop_last(), now, window);
        if in_window(marks.last().since, now, window) {
            before.push(marks.last())
        } else {
            before
        }
    }
}

/// The record after `host` is marked at `now`: its entry is overwritten
/// where it has one, and added at the end where it has none.
pub open spec fn marked(marks: Seq<MarkView>, host: Seq<char>, now: u64) -> Seq<MarkView> {
    if is_marked(marks, host) {
        Seq::new(
            marks.len(),
            |i: int|
                if marks[i].host == host {
                    MarkView { host, since: now }
                } else {
                    marks[i]
                },
        )
    } else {
        marks.push(MarkView { host, since: now })
    }
}

/// The time at which `host` was last marked, if the record holds it.
pub open spec fn marked_since(marks: Seq<MarkView>, host: Seq<char>) -> Option<u64> {
    if is_marked(marks, host) {
        Some(marks[choose|i: int| 0 <= i < marks.len() && (#[trigger] marks[i]).host == host].since)
    } else {
        None
    }
}

/// Position of the first configured host that the record does not hold.
pub open spec fn first_available(hosts: Seq<Seq<char>>, marks: Seq<MarkView>) -> Option<int>
    decreases hosts.len(),
{
    if hosts.len() == 0 {
        None
    } else {
        match first_available(hosts.drop_last(), marks) {
            Some(i) => Some(i),
            None => if is_marked(marks, hosts.last()) {
                None
            } else {
                Some(hosts.len() - 1)
            },
        }
    }
}

/// Position of the entry with the earliest time; of several with that time,
/// the first in the record.
pub open spec fn oldest(marks: Seq<MarkView>) -> int
    decreases marks.len(),
{
    if marks.len() <= 1 {
        0
    } else {
        let before = oldest(marks.drop_last());
        if marks.last().since < marks[before].since {
            marks.len() - 1
        } else {
            before
        }
    }
}

/// The host that the next request goes to: the first configured host without
/// an entry in the record; where every configured host has one, the host of
/// the oldest entry; `None` only where there is neither.
pub open spec fn selection(hosts: Seq<Seq<char>>, marks: Seq<MarkView>) -> Option<Seq<char>> {
    match first_available(hosts, marks) {
        Some(i) => Some(hosts[i]),
        None => if marks.len() > 0 {
            Some(marks[oldest(marks)].host)
        } else {
            None
        },
    }
}

spec fn marks_view(marks: Seq<HostMark>) -> Seq<MarkView> {
    Seq::new(marks.len(), |i: int| MarkView { host: marks[i].host@, since: marks[i].since })
}

/// The names of a list of hosts.
pub open spec fn names_of(hosts: Seq<String>) -> Seq<Seq<char>> {
    Seq::new(hosts.len(), |i: int| hosts[i]@)
}

/// What [`first_available`] finds: the position of a configured host that
/// is free, every host before it being in the record; or nothing, every
/// configured host being in the record.
pub proof fn lemma_first_available(hosts: Seq<Seq<char>>, marks: Seq<MarkView>)
    ensures
        match first_available(hosts, marks) {
            Some(i) => 0 <= i < hosts.len() && !is_marked(marks, hosts[i]) && forall|j: int|
                0 <= j < i ==> is_marked(marks, #[trigger] hosts[j]),
            None => forall|j: int| 0 <= j < hosts.len() ==> is_marked(marks, #[trigger] hosts[j]),
        },
    decreases hosts.len(),
{
    if hosts.len() > 0 {
        let front = hosts.drop_last();
        lemma_first_available(front, marks);
        match first_available(front, marks) {
            Some(i) => {
                assert(front[i] == hosts[i]);
                assert forall|j: int| 0 <= j < i implies is_marked(marks, #[trigger] hosts[j]) by {
                    assert(front[j] == hosts[j]);
                }
            },
            None => {
                assert forall|j: int| 0 <= j < hosts.len() - 1 implies is_marked(
                    marks,
                    #[trigger] hosts[j],
                ) by {
                    assert(front[j] == hosts[j]);
                }
            },
        }
    }
}

/// What [`oldest`] finds in a record that is not empty: an entry that none
/// is older than, and that every entry before it is younger than.
pub proof fn lemma_oldest(marks: Seq<MarkView>)
    requires
        marks.len() > 0,
    ensures
        0 <= oldest(marks) < marks.len(),
        forall|j: int| 0 <= j < marks.len() ==> marks[oldest(marks)].since <= (#[trigger] marks[j]).since,
        forall|j: int| 0 <= j < oldest(marks) ==> marks[oldest(marks)].since < (#[trigger] marks[j]).since,
    decreases marks.len(),
{
    if marks.len() > 1 {
        let front = marks.drop_last();
        lemma_oldest(front);
        let before = oldest(front);
        assert(front[before] == marks[before]);
        assert forall|j: int| 0 <= j < marks.len() implies marks[oldest(marks)].since <= (
        #[trigger] marks[j]).since by {
            if j < marks.len() - 1 {
                assert(front[j] == marks[j]);
            }
        }
        assert forall|j: int| 0 <= j < oldest(marks) implies marks[oldest(marks)].since < (
        #[trigger] marks[j]).since by {
            assert(front[j] == marks[j]);
        }
    }
}

/// What pruning leaves: exactly the entries whose window has not run out,
/// and again at most one per host.
pub proof fn lemma_pruned(marks: Seq<MarkView>, now: u64, window: u64)
    ensures
        pruned(marks, now, window).len() <= marks.len(),
        forall|k: int|
            0 <= k < pruned(marks, now, window).len() ==> in_window(
                (#[trigger] pruned(marks, now, window)[k]).since,
                now,
                window,
            ) && exists|i: int| 0 <= i < marks.len() && marks[i] == pruned(marks, now, window)[k],
        forall|i: int|
            0 <= i < marks.len() && in_window((#[trigger] marks[i]).since, now, window)
                ==> exists|k: int|
                0 <= k < pruned(marks, now, window).len() && pruned(marks, now, window)[k]
                    == marks[i],
        distinct_hosts(marks) ==> distinct_hosts(pruned(marks, now, window)),
    decreases marks.len(),
{
    let result = pruned(marks, now, window);
    if marks.len() > 0 {
        let front = marks.drop_last();
        let before = pruned(front, now, window);
        lemma_pruned(front, now, window);
        let keep = in_window(marks.last().since, now, window);
        assert forall|k: int| 0 <= k < result.len() implies in_window(
            (#[trigger] result[k]).since,
            now,
            window,
        ) && exists|i: int| 0 <= i < marks.len() && marks[i] == result[k] by {
            if k < before.len() {
                assert(result[k] == before[k]);
                let i = choose|i: int| 0 <= i < front.len() && front[i] == before[k];
                assert(marks[i] == result[k]);
            } else {
                assert(marks[marks.len() - 1] == result[k]);
            }
        }
        assert forall|i: int|
            0 <= i < marks.len() && in_window((#[trigger] marks[i]).since, now, window) implies exists|
            k: int,
        | 0 <= k < result.len() && result[k] == marks[i] by {
            if i < marks.len() - 1 {
                assert(front[i] == marks[i]);
                let k = choose|k: int| 0 <= k < before.len() && before[k] == front[i];
                assert(result[k] == marks[i]);
            } else {
                assert(result[result.len() - 1] == marks[i]);
            }
        }
        if distinct_hosts(marks) {
            assert(distinct_hosts(front)) by {
                assert forall|i: int, j: int|
                    0 <= i < front.len() && 0 <= j < front.len() && (#[trigger] front[i]).host == (
                    #[trigger] front[j]).host implies i == j by {
                    assert(front[i] == marks[i]);
                    assert(front[j] == marks[j]);
                }
            }
            assert forall|a: int, b: int|
                0 <= a < result.len() && 0 <= b < result.len() && (#[trigger] result[a]).host == (
                #[trigger] result[b]).host implies a == b by {
                if a < before.len() && b < before.len() {
                    assert(result[a] == before[a]);
                    assert(result[b] == before[b]);
                } else if a < before.len() {
                    let i = choose|i: int| 0 <= i < front.len() && front[i] == before[a];
                    assert(marks[i] == result[a]);
                } else if b < before.len() {
                    let i = choose|i: int| 0 <= i < front.len() && front[i] == before[b];
                    assert(marks[i] == result[b]);
                }
            }
        }
    }
}

/// A host has an entry after pruning exactly when it had one before whose
/// window has not run out.
pub proof fn lemma_pruned_is_marked(marks: Seq<MarkView>, now: u64, window: u64, host: Seq<char>)
    ensures
        is_marked(pruned(marks, now, window), host) <==> exists|i: int|
            0 <= i < marks.len() && (#[trigger] marks[i]).host == host && in_window(
                marks[i].since,
                now,
                window,
            ),
{
    lemma_pruned(marks, now, window);
    let result = pruned(marks, now, window);
    if is_marked(result, host) {
        let k = choose|k: int| 0 <= k < result.len() && (#[trigger] result[k]).host == host;
        let i = choose|i: int| 0 <= i < marks.len() && marks[i] == result[k];
        assert(marks[i].host == host && in_window(marks[i].since, now, window));
    }
    if exists|i: int|
        0 <= i < marks.len() && (#[trigger] marks[i]).host == host && in_window(
            marks[i].since,
            now,
            window,
        ) {
        let i = choose|i: int|
            0 <= i < marks.len() && (#[trigger] marks[i]).host == host && in_window(
                marks[i].since,
                now,
                window,
            );
        let k = choose|k: int| 0 <= k < result.len() && result[k] == marks[i];
        assert(result[k].host == host);
    }
}

/// Marking a host leaves the record with exactly one entry for it, made at
/// `now`, and leaves every other host's entry as it was.
pub proof fn lemma_marked(marks: Seq<MarkView>, host: Seq<char>, now: u64)
    requires
        distinct_hosts(marks),
    ensures
        distinct_hosts(marked(marks, host, now)),
        is_marked(marked(marks, host, now), host),
        marked_since(marked(marks, host, now), host) == Some(now),
        forall|other: Seq<char>|
            other != host ==> is_marked(marked(marks, host, now), other) == is_marked(marks, other)
                && marked_since(marked(marks, host, now), other) == marked_since(marks, other),
        marked(marks, host, now).len() == if is_marked(marks, host) {
            marks.len()
        } else {
            marks.len() + 1
        },
{
    let after = marked(marks, host, now);
    if is_marked(marks, host) {
        let i = choose|i: int| 0 <= i < marks.len() && (#[trigger] marks[i]).host == host;
        assert(after[i].host == host);
        assert forall|a: int, b: int|
            0 <= a < after.len() && 0 <= b < after.len() && (#[trigger] after[a]).host == (
            #[trigger] after[b]).host implies a == b by {
            assert(after[a].host == marks[a].host);
            assert(after[b].host == marks[b].host);
        }
    } else {
        assert(after[after.len() - 1].host == host);
        assert forall|a: int, b: int|
            0 <= a < after.len() && 0 <= b < after.len() && (#[trigger] after[a]).host == (
            #[trigger] after[b]).host implies a == b by {
            if a < marks.len() {
                assert(after[a] == marks[a]);
            }
            if b < marks.len() {
                assert(after[b] == marks[b]);
            }
        }
    }
    let w = choose|i: int| 0 <= i < after.len() && (#[trigger] after[i]).host == host;
    assert(after[w].since == now);
    assert forall|other: Seq<char>| other != host implies is_marked(after, other) == is_marked(
        marks,
        other,
    ) && marked_since(after, other) == marked_since(marks, other) by {
        if is_marked(marks, other) {
            let i = choose|i: int| 0 <= i < marks.len() && (#[trigger] marks[i]).host == other;
            assert(after[i] == marks[i]);
            assert(is_marked(after, other));
            let k = choose|k: int| 0 <= k < after.len() && (#[trigger] after[k]).host == other;
            assert(after[k].host == after[i].host);
            assert(k == i);
        }
        if is_marked(after, other) {
            let k = choose|k: int| 0 <= k < after.len() && (#[trigger] after[k]).host == other;
            assert(k < marks.len());
            assert(marks[k].host == other);
        }
    }
}

/// A host is chosen whenever one is configured, whatever the record holds.
pub proof fn lemma_selection_never_fails(hosts: Seq<Seq<char>>, marks: Seq<MarkView>)
    requires
        hosts.len() > 0,
    ensures
        selection(hosts, marks) is Some,
{
    lemma_first_available(hosts, marks);
    if first_available(hosts, marks) is None {
        assert(is_marked(marks, hosts[0]));
    }
}

/// Where every configured host is in the record, the choice falls on the
/// host whose entry is the oldest: no entry of the record is older.
pub proof fn lemma_all_unavailable_selects_oldest(hosts: Seq<Seq<char>>, marks: Seq<MarkView>)
    requires
        hosts.len() > 0,
        forall|i: int| 0 <= i < hosts.len() ==> is_marked(marks, #[trigger] hosts[i]),
    ensures
        marks.len() > 0,
        0 <= oldest(marks) < marks.len(),
        selection(hosts, marks) == Some(marks[oldest(marks)].host),
        is_marked(marks, marks[oldest(marks)].host),
        forall|j: int|
            0 <= j < marks.len() ==> marks[oldest(marks)].since <= (#[trigger] marks[j]).since,
{
    lemma_first_available(hosts, marks);
    assert(is_marked(marks, hosts[0]));
    lemma_oldest(marks);
    match first_available(hosts, marks) {
        Some(i) => {
            assert(is_marked(marks, hosts[i]));
        },
        None => {},
    }
}

/// A host that the record holds is passed over as long as some configured
/// host is free.
pub proof fn lemma_marked_host_is_passed_over(
    hosts: Seq<Seq<char>>,
    marks: Seq<MarkView>,
    host: Seq<char>,
)
    requires
        is_marked(marks, host),
        exists|i: int| 0 <= i < hosts.len() && !is_marked(marks, #[trigger] hosts[i]),
    ensures
        selection(hosts, marks) is Some,
        selection(hosts, marks)->0 != host,
{
    lemma_first_available(hosts, marks);
    let i = choose|i: int| 0 <= i < hosts.len() && !is_marked(marks, #[trigger] hosts[i]);
    assert(first_available(hosts, marks) is Some);
}

/// A configured host that the record does not hold is chosen, unless a host
/// configured before it is free as well.
pub proof fn lemma_free_host_is_eligible(hosts: Seq<Seq<char>>, marks: Seq<MarkView>, i: int)
    requires
        0 <= i < hosts.len(),
        !is_marked(marks, hosts[i]),
        forall|j: int| 0 <= j < i ==> is_marked(marks, #[trigger] hosts[j]),
    ensures
        selection(hosts, marks) == Some(hosts[i]),
{
    lemma_first_available(hosts, marks);
    match first_available(hosts, marks) {
        Some(k) => {
            if k < i {
                assert(is_marked(marks, hosts[k]));
            }
            if i < k {
                assert(is_marked(marks, hosts[i]));
            }
        },
        None => {
            assert(is_marked(marks, hosts[i]));
        },
    }
}

/// What can happen to the record: a host is chosen, which prunes the record,
/// or a host is marked.
pub enum RecordEvent {
    Chosen { now: u64 },
    Marked { host: Seq<char>, now: u64 },
}

impl RecordEvent {
    /// The time of the event.
    pub open spec fn at(self) -> u64 {
        match self {
            RecordEvent::Chosen { now } => now,
            RecordEvent::Marked { now, .. } => now,
        }
    }

    /// Whether the event marks `host`.
    pub open spec fn marks(self, host: Seq<char>) -> bool {
        self matches RecordEvent::Marked { host: h, .. } && h == host
    }
}

/// The record after one event.
pub open spec fn after_event(marks: Seq<MarkView>, window: u64, event: RecordEvent) -> Seq<
    MarkView,
> {
    match event {
        RecordEvent::Chosen { now } => pruned(marks, now, window),
        RecordEvent::Marked { host, now } => marked(marks, host, now),
    }
}

/// The record after a sequence of events, the first of them first.
pub open spec fn after_events(
    marks: Seq<MarkView>,
    window: u64,
    events: Seq<RecordEvent>,
) -> Seq<MarkView>
    decreases events.len(),
{
    if events.len() == 0 {
        marks
    } else {
        after_event(after_events(marks, window, events.drop_last()), window, events.last())
    }
}

/// Pruning changes no time: a host that is still in the record afterwards
/// has the time that it had before.
pub proof fn lemma_pruned_keeps_times(
    marks: Seq<MarkView>,
    now: u64,
    window: u64,
    host: Seq<char>,
)
    requires
        distinct_hosts(marks),
        is_marked(pruned(marks, now, window), host),
    ensures
        marked_since(pruned(marks, now, window), host) == marked_since(marks, host),
        is_marked(marks, host),
{
    let result = pruned(marks, now, window);
    lemma_pruned(marks, now, window);
    let k = choose|k: int| 0 <= k < result.len() && (#[trigger] result[k]).host == host;
    let i = choose|i: int| 0 <= i < marks.len() && marks[i] == result[k];
    assert(marks[i].host == host);
    let j = choose|j: int| 0 <= j < marks.len() && (#[trigger] marks[j]).host == host;
    assert(marks[j].host == marks[i].host);
}

/// A mark lasts for its window whatever else happens to the record
/// meanwhile. Let `host` be marked at time `t`, and let any events follow
/// that fall between `t` and `now` and do not mark `host` again. Then at
/// `now` the record still holds `host`, with the time `t`, if less than
/// `window` has passed since `t`, and it does not hold `host` otherwise.
pub proof fn lemma_mark_lasts_for_window(
    marks: Seq<MarkView>,
    host: Seq<char>,
    t: u64,
    events: Seq<RecordEvent>,
    now: u64,
    window: u64,
)
    requires
        distinct_hosts(marks),
        t <= now,
        forall|k: int|
            0 <= k < events.len() ==> t <= (#[trigger] events[k]).at() <= now && !events[k].marks(
                host,
            ),
    ensures
        ({
            let record = pruned(
                after_events(marked(marks, host, t), window, events),
                now,
                window,
            );
            &&& distinct_hosts(record)
            &&& now - t < window ==> marked_since(record, host) == Some(t)
            &&& now - t >= window ==> !is_marked(record, host)
        }),
{
    lemma_events_keep_mark(marks, host, t, events, now, window);
    let before = after_events(marked(marks, host, t), window, events);
    let record = pruned(before, now, window);
    lemma_pruned(before, now, window);
    lemma_pruned_is_marked(before, now, window, host);
    if is_marked(before, host) {
        let w = choose|i: int| 0 <= i < before.len() && (#[trigger] before[i]).host == host;
        assert(before[w].since == t);
        if now - t < window {
            assert(in_window(before[w].since, now, window));
            lemma_pruned_keeps_times(before, now, window, host);
        } else if is_marked(record, host) {
            let i = choose|i: int|
                0 <= i < before.len() && (#[trigger] before[i]).host == host && in_window(
                    before[i].since,
                    now,
                    window,
                );
            assert(before[i].host == before[w].host);
        }
    }
}

proof fn lemma_events_keep_mark(
    marks: Seq<MarkView>,
    host: Seq<char>,
    t: u64,
    events: Seq<RecordEvent>,
    now: u64,
    window: u64,
)
    requires
        distinct_hosts(marks),
        t <= now,
        forall|k: int|
            0 <= k < events.len() ==> t <= (#[trigger] events[k]).at() <= now && !events[k].marks(
                host,
            ),
    ensures
        ({
            let record = after_events(marked(marks, host, t), window, events);
            &&& distinct_hosts(record)
            &&& is_marked(record, host) ==> marked_since(record, host) == Some(t)
            &&& now - t < window ==> is_marked(record, host)
        }),
    decreases events.len(),
{
    lemma_marked(marks, host, t);
    if events.len() > 0 {
        let earlier = events.drop_last();
        assert forall|k: int| 0 <= k < earlier.len() implies t <= (#[trigger] earlier[k]).at()
            <= now && !earlier[k].marks(host) by {
            assert(earlier[k] == events[k]);
        }
        lemma_events_keep_mark(marks, host, t, earlier, now, window);
        let before = after_events(marked(marks, host, t), window, earlier);
        let event = events[events.len() - 1];
        match event {
            RecordEvent::Chosen { now: at } => {
                lemma_pruned(before, at, window);
                lemma_pruned_is_marked(before, at, window, host);
                if is_marked(pruned(before, at, window), host) {
                    lemma_pruned_keeps_times(before, at, window, host);
                }
                if now - t < window {
                    let w = choose|i: int|
                        0 <= i < before.len() && (#[trigger] before[i]).host == host;
                    assert(before[w].since == t);
                    assert(in_window(before[w].since, at, window));
                }
            },
            RecordEvent::Marked { host: other, now: at } => {
                lemma_marked(before, other, at);
            },
        }
    }
}

/// A host marked at time `t` is out of the choice for the whole window and
/// back in it afterwards, absent a new mark. Let any events follow the mark
/// that fall between `t` and `now` and do not mark `host` again, and let a
/// host be chosen at `now`. While less than `window` has passed since `t`,
/// the choice does not fall on `host` as long as some configured host is
/// free; from then on it falls on `host`, unless a host configured before
/// it is free.
pub proof fn lemma_unavailable_for_window(
    hosts: Seq<Seq<char>>,
    marks: Seq<MarkView>,
    host: Seq<char>,
    t: u64,
    events: Seq<RecordEvent>,
    now: u64,
    window: u64,
)
    requires
        distinct_hosts(marks),
        t <= now,
        forall|k: int|
            0 <= k < events.len() ==> t <= (#[trigger] events[k]).at() <= now && !events[k].marks(
                host,
            ),
    ensures
        ({
            let record = pruned(
                after_events(marked(marks, host, t), window, events),
                now,
                window,
            );
            &&& now - t < window && (exists|i: int|
                0 <= i < hosts.len() && !is_marked(record, #[trigger] hosts[i])) ==> selection(
                hosts,
                record,
            ) is Some && selection(hosts, record)->0 != host
            &&& now - t >= window ==> forall|i: int|
                0 <= i < hosts.len() && #[trigger] hosts[i] == host && (forall|j: int|
                    0 <= j < i ==> is_marked(record, #[trigger] hosts[j])) ==> selection(
                    hosts,
                    record,
                ) == Some(host)
        }),
{
    let record = pruned(after_events(marked(marks, host, t), window, events), now, window);
    lemma_mark_lasts_for_window(marks, host, t, events, now, window);
    if now - t < window {
        if exists|i: int| 0 <= i < hosts.len() && !is_marked(record, #[trigger] hosts[i]) {
            lemma_marked_host_is_passed_over(hosts, record, host);
        }
    } else {
        assert forall|i: int|
            0 <= i < hosts.len() && #[trigger] hosts[i] == host && (forall|j: int|
                0 <= j < i ==> is_marked(record, #[trigger] hosts[j])) implies selection(
            hosts,
            record,
        ) == Some(host) by {
            lemma_free_host_is_eligible(hosts, record, i);
        }
    }
}

impl LlamaCppHostManager {
    /// The unavailability record: one entry per host that is held to be
    /// down, in the order in which the hosts were first marked.
    pub closed spec fn marks(&self) -> Seq<MarkView> {
        marks_view(self.unavailable_hosts@)
    }

    /// The unavailability window.
    pub closed spec fn window(&self) -> u64 {
        self.unavailable_duration
    }

    /// The configured hosts by name, in order.
    pub closed spec fn host_names(&self) -> Seq<Seq<char>> {
        names_of(self.hosts@)
    }

    /// The key that requests carry, if one is configured.
    pub closed spec fn configured_key(&self) -> Option<String> {
        self.api_key
    }

    /// The record holds at most one entry per host.
    #[verifier::type_invariant]
    spec fn one_entry_per_host(&self) -> bool {
        distinct_hosts(marks_view(self.unavailable_hosts@))
    }

    /// A manager for `hosts`, none of them marked, with the given window.
    pub fn new(hosts: Vec<String>, api_key: Option<String>, unavailable_duration: u64) -> (r: Self)
        ensures
            r.host_names() == names_of(hosts@),
            r.configured_key() == api_key,
            r.window() == unavailable_duration,
            r.marks() == Seq::<MarkView>::empty(),
    {
        let r = LlamaCppHostManager {
            hosts,
            api_key,
            unavailable_hosts: Vec::new(),
            unavailable_duration,
        };
        assert(r.marks() =~= Seq::<MarkView>::empty());
        r
    }

    /// The configured hosts, in order of preference.
    pub fn hosts(&self) -> (r: &Vec<String>)
        ensures
            names_of(r@) == self.host_names(),
    {
        &self.hosts
    }

    /// The key that requests carry, if one is configured.
    pub fn api_key(&self) -> (r: &Option<String>)
        ensures
            *r == self.configured_key(),
    {
        &self.api_key
    }

    /// The unavailability window that the manager was made with.
    pub fn unavailable_duration(&self) -> (r: u64)
        ensures
            r == self.window(),
    {
        self.unavailable_duration
    }

    fn find_mark(&self, host: &String) -> (r: Option<usize>)
        ensures
            match r {
                Some(i) => i < self.marks().len() && self.marks()[i as int].host == host@,
                None => !is_marked(self.marks(), host@),
            },
    {
        let mut i: usize = 0;
        while i < self.unavailable_hosts.len()
            invariant
                i <= self.unavailable_hosts@.len(),
                self.marks().len() == self.unavailable_hosts@.len(),
                forall|j: int| 0 <= j < i ==> (#[trigger] self.marks()[j]).host != host@,
            decreases self.unavailable_hosts@.len() - i,
        {
            if self.unavailable_hosts[i].host == *host {
                return Some(i);
            }
            i = i + 1;
        }
        None
    }

    /// The time at which `host` was last marked unavailable, as far as the
    /// record still holds it.
    pub fn unavailable_since(&self, host: &str) -> (r: Option<u64>)
        ensures
            r == marked_since(self.marks(), host@),
    {
        let wanted = host.to_owned();
        match self.find_mark(&wanted) {
            Some(i) => {
                proof {
                    use_type_invariant(self);
                    let k = choose|k: int|
                        0 <= k < self.marks().len() && (#[trigger] self.marks()[k]).host == host@;
                    assert(self.marks()[k].host == self.marks()[i as int].host);
                }
                Some(self.unavailable_hosts[i].since)
            },
            None => None,
        }
    }

    fn prune(&mut self, now: u64)
        ensures
            distinct_hosts(final(self).marks()),
            final(self).host_names() == old(self).host_names(),
            final(self).configured_key() == old(self).configured_key(),
            final(self).window() == old(self).window(),
            final(self).marks() == pruned(old(self).marks(), now, old(self).window()),
    {
        let mut kept: Vec<HostMark> = Vec::new();
        let mut i: usize = 0;
        let window = self.unavailable_duration;
        assert(self.marks().take(0) =~= Seq::<MarkView>::empty());
        while i < self.unavailable_hosts.len()
            invariant
                i <= self.unavailable_hosts@.len(),
                self.marks().len() == self.unavailable_hosts@.len(),
                marks_view(kept@) == pruned(self.marks().take(i as int), now, window),
            decreases self.unavailable_hosts@.len() - i,
        {
            let since = self.unavailable_hosts[i].since;
            let passed = if now >= since {
                now - since
            } else {
                0
            };
            proof {
                let upto = self.marks().take(i + 1);
                assert(upto.drop_last() =~= self.marks().take(i as int));
                assert(upto.last() == self.marks()[i as int]);
            }
            if passed < window {
                let ghost before = marks_view(kept@);
                kept.push(HostMark { host: self.unavailable_hosts[i].host.clone(), since });
                assert(marks_view(kept@) =~= before.push(self.marks()[i as int]));
            }
            i = i + 1;
        }
        proof {
            use_type_invariant(&*self);
            assert(self.marks().take(i as int) =~= self.marks());
            lemma_pruned(self.marks(), now, window);
        }
        self.unavailable_hosts = kept;
    }

    /// Chooses the host for the next request at time `now`.
    ///
    /// Entries of the record whose window has run out are dropped first.
    /// The choice is then the first configured host without an entry; where
    /// every configured host has one, the host of the oldest entry, so that
    /// a host is chosen whenever there is one to choose. Fails with
    /// `NoHostsReachable` only where no host is configured and the record is
    /// empty.
    pub fn get_available_host(&mut self, now: u64) -> (r: Result<String, ImageAnalysisError>)
        ensures
            distinct_hosts(final(self).marks()),
            final(self).host_names() == old(self).host_names(),
            final(self).configured_key() == old(self).configured_key(),
            final(self).window() == old(self).window(),
            final(self).marks() == pruned(old(self).marks(), now, old(self).window()),
            match r {
                Ok(host) => selection(final(self).host_names(), final(self).marks()) == Some(
                    host@,
                ),
                Err(e) => e == ImageAnalysisError::NoHostsReachable && selection(
                    final(self).host_names(),
                    final(self).marks(),
                ) is None,
            },
    {
        self.prune(now);
        self.select()
    }

    /// The choice among the hosts as the record stands, without pruning it.
    fn select(&self) -> (r: Result<String, ImageAnalysisError>)
        ensures
            match r {
                Ok(host) => selection(self.host_names(), self.marks()) == Some(host@),
                Err(e) => e == ImageAnalysisError::NoHostsReachable && selection(
                    self.host_names(),
                    self.marks(),
                ) is None,
            },
    {
        let ghost names = self.host_names();
        let ghost marks = self.marks();
        let mut i: usize = 0;
        assert(names.take(0) =~= Seq::<Seq<char>>::empty());
        while i < self.hosts.len()
            invariant
                i <= self.hosts@.len(),
                names == self.host_names(),
                marks == self.marks(),
                names.len() == self.hosts@.len(),
                first_available(names.take(i as int), marks) is None,
            decreases self.hosts@.len() - i,
        {
            proof {
                let upto = names.take(i + 1);
                assert(upto.drop_last() =~= names.take(i as int));
                assert(upto.last() == names[i as int]);
            }
            if self.find_mark(&self.hosts[i]).is_none() {
                proof {
                    lemma_first_available_prefix(names, marks, i as int);
                }
                return Ok(self.hosts[i].clone());
            }
            i = i + 1;
        }
        assert(names.take(i as int) =~= names);
        if self.unavailable_hosts.len() == 0 {
            return Err(ImageAnalysisError::NoHostsReachable);
        }
        let mut best: usize = 0;
        let mut k: usize = 1;
        assert(marks.take(1).len() == 1);
        while k < self.unavailable_hosts.len()
            invariant
                1 <= k <= self.unavailable_hosts@.len(),
                marks == self.marks(),
                marks.len() == self.unavailable_hosts@.len(),
                best == oldest(marks.take(k as int)),
                best < k,
            decreases self.unavailable_hosts@.len() - k,
        {
            proof {
                let upto = marks.take(k + 1);
                assert(upto.drop_last() =~= marks.take(k as int));
                assert(upto.last() == marks[k as int]);
                assert(upto[best as int] == marks[best as int]);
            }
            if self.unavailable_hosts[k].since < self.unavailable_hosts[best].since {
                best = k;
            }
            k = k + 1;
        }
        assert(marks.take(k as int) =~= marks);
        Ok(self.unavailable_hosts[best].host.clone())
    }

    /// Records at time `now` that `host` failed: its entry is overwritten
    /// where the record holds one, and added where it does not.
    pub fn mark_host_unavailable(&mut self, host: &str, now: u64)
        ensures
            distinct_hosts(final(self).marks()),
            final(self).host_names() == old(self).host_names(),
            final(self).configured_key() == old(self).configured_key(),
            final(self).window() == old(self).window(),
            final(self).marks() == marked(old(self).marks(), host@, now),
    {
        let wanted = host.to_owned();
        let ghost before = self.marks();
        let mut updated: Vec<HostMark> = Vec::new();
        let mut found = false;
        let mut i: usize = 0;
        while i < self.unavailable_hosts.len()
            invariant
                i <= self.unavailable_hosts@.len(),
                before == self.marks(),
                before.len() == self.unavailable_hosts@.len(),
                wanted@ == host@,
                found <==> is_marked(before.take(i as int), host@),
                marks_view(updated@) == Seq::new(
                    i as nat,
                    |k: int|
                        if before[k].host == host@ {
                            MarkView { host: host@, since: now }
                        } else {
                            before[k]
                        },
                ),
            decreases self.unavailable_hosts@.len() - i,
        {
            let ghost copied = marks_view(updated@);
            proof {
                let upto = before.take(i + 1);
                assert(upto[i as int] == before[i as int]);
                if is_marked(upto, host@) && !is_marked(before.take(i as int), host@) {
                    let k = choose|k: int| 0 <= k < upto.len() && (#[trigger] upto[k]).host == host@;
                    if k < i {
                        assert(before.take(i as int)[k].host == host@);
                    }
                }
                if is_marked(before.take(i as int), host@) {
                    let k = choose|k: int|
                        0 <= k < i && (#[trigger] before.take(i as int)[k]).host == host@;
                    assert(upto[k].host == host@);
                }
            }
            assert(before[i as int] == MarkView {
                host: self.unavailable_hosts@[i as int].host@,
                since: self.unavailable_hosts@[i as int].since,
            });
            if self.unavailable_hosts[i].host == wanted {
                updated.push(HostMark { host: wanted.clone(), since: now });
                found = true;
                assert(marks_view(updated@) =~= copied.push(MarkView { host: host@, since: now }));
            } else {
                updated.push(
                    HostMark {
                        host: self.unavailable_hosts[i].host.clone(),
                        since: self.unavailable_hosts[i].since,
                    },
                );
                assert(marks_view(updated@) =~= copied.push(before[i as int]));
            }
            assert(marks_view(updated@) =~= Seq::new(
                (i + 1) as nat,
                |k: int|
                    if before[k].host == host@ {
                        MarkView { host: host@, since: now }
                    } else {
                        before[k]
                    },
            ));
            i = i + 1;
        }
        assert(before.take(i as int) =~= before);
        if !found {
            let ghost copied = marks_view(updated@);
            assert(copied =~= before);
            updated.push(HostMark { host: wanted, since: now });
            assert(marks_view(updated@) =~= before.push(MarkView { host: host@, since: now }));
        }
        proof {
            use_type_invariant(&*self);
            lemma_marked(before, host@, now);
            assert(marks_view(updated@) =~= marked(before, host@, now));
        }
        self.unavailable_hosts = updated;
    }
}

proof fn lemma_first_available_prefix(hosts: Seq<Seq<char>>, marks: Seq<MarkView>, i: int)
    requires
        0 <= i < hosts.len(),
        first_available(hosts.take(i), marks) is None,
        !is_marked(marks, hosts[i]),
    ensures
        first_available(hosts, marks) == Some(i),
{
    lemma_first_available(hosts, marks);
    lemma_first_available(hosts.take(i), marks);
    match first_available(hosts, marks) {
        Some(j) => {
            if j < i {
                assert(hosts.take(i)[j] == hosts[j]);
            }
        },
        None => {},
    }
}

} // verus!
