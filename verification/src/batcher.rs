//! Coalescing of semantic events before they are published.
//!
//! [`EventBatcher`] holds the labels pushed since a window opened; once the
//! window has elapsed, the whole batch is drained at once. The first push
//! after a drain opens the window: the policy is a fixed window, not a
//! sliding one. [`count_labels`] turns a drained batch into per-label
//! counts, in order of first occurrence.

use vstd::prelude::*;

verus! {

/// A semantic event label, as handed to the telemetry side.
#[derive(Clone, Copy, PartialEq, Eq, Structural, Debug)]
pub enum SemanticEvent {
    /// A completed press-and-release of the dial's button.
    Click,
}

impl SemanticEvent {
    /// Wire name of the label.
    pub fn name(&self) -> (s: &'static str)
        ensures
            *self is Click ==> s@ == "click"@,
    {
        match self {
            SemanticEvent::Click => "click",
        }
    }
}

/// Ghost image of an event batcher.
pub ghost struct BatcherModel {
    /// Labels pushed since the last drain, in order.
    pub events: Seq<SemanticEvent>,
    /// Time the current window opened, if one is open.
    pub window_start: Option<int>,
    /// Window width in milliseconds.
    pub window: int,
}

/// Batches semantic events within a fixed window.
pub struct EventBatcher {
    events: Vec<SemanticEvent>,
    window_start: Option<u64>,
    window: u64,
}

impl View for EventBatcher {
    type V = BatcherModel;

    closed spec fn view(&self) -> BatcherModel {
        BatcherModel {
            events: self.events@,
            window_start: crate::dial::time_view(self.window_start),
            window: self.window as int,
        }
    }
}

impl EventBatcher {
    /// An empty batcher with the given window width in milliseconds.
    pub fn new(window_ms: u64) -> (b: Self)
        ensures
            b@.events == Seq::<SemanticEvent>::empty(),
            b@.window_start is None,
            b@.window == window_ms,
    {
        EventBatcher { events: Vec::new(), window_start: Option::None, window: window_ms }
    }

    /// Append one label. The first push after a drain opens the window at
    /// `now`; later pushes within the window ride along.
    pub fn push(&mut self, event: SemanticEvent, now: u64)
        ensures
            final(self)@.events == old(self)@.events.push(event),
            final(self)@.window_start == (match old(self)@.window_start {
                Option::None => Option::Some(now as int),
                Option::Some(t) => Option::Some(t),
            }),
            final(self)@.window == old(self)@.window,
    {
        if self.window_start.is_none() {
            self.window_start = Option::Some(now);
        }
        self.events.push(event);
    }

    /// Drain the batch if a window is open and has elapsed at `now`;
    /// otherwise leave the batcher unchanged and return nothing.
    pub fn try_flush(&mut self, now: u64) -> (drained: Option<Vec<SemanticEvent>>)
        ensures
            final(self)@.window == old(self)@.window,
            match old(self)@.window_start {
                Option::None => {
                    &&& drained is None
                    &&& final(self)@ == old(self)@
                },
                Option::Some(t) => {
                    if crate::model::elapsed_ms(t, now as int) >= old(self)@.window {
                        &&& drained matches Option::Some(v) && v@ == old(self)@.events
                        &&& final(self)@.events == Seq::<SemanticEvent>::empty()
                        &&& final(self)@.window_start is None
                    } else {
                        &&& drained is None
                        &&& final(self)@ == old(self)@
                    }
                },
            },
    {
        match self.window_start {
            Option::None => Option::None,
            Option::Some(t) => {
                let elapsed = if now >= t {
                    now - t
                } else {
                    0
                };
                if elapsed >= self.window {
                    self.window_start = Option::None;
                    let mut drained: Vec<SemanticEvent> = Vec::new();
                    core::mem::swap(&mut drained, &mut self.events);
                    Option::Some(drained)
                } else {
                    Option::None
                }
            },
        }
    }
}

/// How often `label` occurs in `events`.
pub open spec fn count_occurrences(events: Seq<SemanticEvent>, label: SemanticEvent) -> int
    decreases events.len(),
{
    if events.len() == 0 {
        0
    } else {
        count_occurrences(events.drop_last(), label) + if events.last() == label {
            1int
        } else {
            0int
        }
    }
}

/// The distinct labels of `events`, in order of first occurrence.
pub open spec fn distinct_labels(events: Seq<SemanticEvent>) -> Seq<SemanticEvent>
    decreases events.len(),
{
    if events.len() == 0 {
        Seq::empty()
    } else {
        let d = distinct_labels(events.drop_last());
        if d.contains(events.last()) {
            d
        } else {
            d.push(events.last())
        }
    }
}

/// A label occurs in `events` exactly when [`distinct_labels`] keeps it.
proof fn lemma_distinct_labels_contains(events: Seq<SemanticEvent>, label: SemanticEvent)
    ensures
        distinct_labels(events).contains(label) <==> count_occurrences(events, label) > 0,
    decreases events.len(),
{
    if events.len() == 0 {
    } else {
        lemma_distinct_labels_contains(events.drop_last(), label);
        lemma_count_occurrences_le_len(events.drop_last(), label);
        let d = distinct_labels(events.drop_last());
        if !d.contains(events.last()) {
            assert(distinct_labels(events) == d.push(events.last()));
            if label == events.last() {
                assert(distinct_labels(events)[d.len() as int] == label);
                assert(distinct_labels(events).contains(label));
            } else if d.contains(label) {
                let i = choose|i: int| 0 <= i < d.len() && d[i] == label;
                assert(distinct_labels(events)[i] == label);
                assert(distinct_labels(events).contains(label));
            }
            if distinct_labels(events).contains(label) && label != events.last() {
                let i = choose|i: int|
                    0 <= i < distinct_labels(events).len() && distinct_labels(events)[i] == label;
                assert(d[i] == label);
                assert(d.contains(label));
            }
        } else {
            if label == events.last() {
                assert(count_occurrences(events, label) > 0);
            }
        }
    }
}

/// No label occurs more often than there are events.
proof fn lemma_count_occurrences_le_len(events: Seq<SemanticEvent>, label: SemanticEvent)
    ensures
        0 <= count_occurrences(events, label) <= events.len(),
    decreases events.len(),
{
    if events.len() > 0 {
        lemma_count_occurrences_le_len(events.drop_last(), label);
    }
}

/// Count each distinct label of a drained batch: the result pairs the
/// labels, in order of first occurrence, with how often each occurred.
pub fn count_labels(events: &Vec<SemanticEvent>) -> (counts: Vec<(SemanticEvent, u32)>)
    requires
        events@.len() <= u32::MAX,
    ensures
        counts@.map_values(|p: (SemanticEvent, u32)| p.0) == distinct_labels(events@),
        forall|k: int|
            0 <= k < counts@.len() ==> #[trigger] counts@[k].1 as int == count_occurrences(
                events@,
                counts@[k].0,
            ),
{
    let ghost labels = |p: (SemanticEvent, u32)| p.0;
    let mut counts: Vec<(SemanticEvent, u32)> = Vec::new();
    assert(counts@.map_values(labels) =~= distinct_labels(events@.take(0)));
    let n = events.len();
    for i in 0..n
        invariant
            n == events@.len() <= u32::MAX,
            counts@.map_values(labels) =~= distinct_labels(events@.take(i as int)),
            forall|k: int|
                0 <= k < counts@.len() ==> #[trigger] counts@[k].1 as int == count_occurrences(
                    events@.take(i as int),
                    counts@[k].0,
                ),
            forall|k1: int, k2: int|
                0 <= k1 < k2 < counts@.len() ==> counts@[k1].0 != counts@[k2].0,
    {
        let label = events[i];
        let ghost prefix = events@.take(i as int);
        let ghost prefix2 = events@.take(i + 1);
        proof {
            assert(prefix2.drop_last() =~= prefix);
            assert(prefix2.last() == label);
            lemma_distinct_labels_contains(prefix, label);
            lemma_count_occurrences_le_len(prefix, label);
        }
        let mut j: usize = 0;
        let mut found = false;
        while j < counts.len() && !found
            invariant
                0 <= j <= counts@.len(),
                !found ==> forall|k: int| 0 <= k < j ==> #[trigger] counts@[k].0 != label,
                found ==> j < counts@.len() && counts@[j as int].0 == label,
            decreases counts@.len() - j + (if found {
                0int
            } else {
                1int
            }),
        {
            if counts[j].0 == label {
                found = true;
            } else {
                j = j + 1;
            }
        }
        if found {
            proof {
                assert(counts@.map_values(labels)[j as int] == label);
                assert(distinct_labels(prefix).contains(label));
            }
            let c = counts[j].1;
            assert(c as int == count_occurrences(prefix, label));
            counts[j] = (label, c + 1);
            proof {
                assert(counts@[j as int] == (label, (c + 1) as u32));
                assert(counts@.map_values(labels) =~= distinct_labels(prefix2));
            }
        } else {
            proof {
                if distinct_labels(prefix).contains(label) {
                    let k = choose|k: int|
                        0 <= k < distinct_labels(prefix).len() && distinct_labels(prefix)[k]
                            == label;
                    assert(counts@.map_values(labels)[k] == label);
                    assert(counts@[k].0 == label);
                }
            }
            proof {
                assert(!distinct_labels(prefix).contains(label));
                assert(count_occurrences(prefix, label) == 0);
            }
            counts.push((label, 1));
            proof {
                assert(counts@.map_values(labels) =~= distinct_labels(prefix).push(label));
                assert(counts@[counts@.len() - 1] == (label, 1u32));
            }
        }
        proof {
            assert forall|k: int| 0 <= k < counts@.len() implies #[trigger] counts@[k].1 as int
                == count_occurrences(prefix2, counts@[k].0) by {
                assert(count_occurrences(prefix2, counts@[k].0) == count_occurrences(
                    prefix,
                    counts@[k].0,
                ) + if label == counts@[k].0 {
                    1int
                } else {
                    0int
                });
            }
        }
    }
    proof {
        assert(events@.take(n as int) =~= events@);
    }
    counts
}

} // verus!
