//! The frontier of the crawl: the one place that knows which URLs have been
//! seen and that decides what happens next.
//!
//! The frontier is a state machine. Its owner asks it for the next step with
//! [`Frontier::next`], carries the step out, and reports each finished task
//! with [`Frontier::task_done`]. A candidate URL is visited if it has not been
//! seen before; the crawl is over when no candidate is pending and no task is
//! in flight.

use crate::address::{urls_view, Url, UrlView};
use std::collections::VecDeque;
use vstd::hash_set::StringHashSet;
use vstd::prelude::*;

verus! {

/// The mathematical value of a [`Frontier`].
pub struct FrontierView {
    /// The texts of the URLs seen so far.
    pub visited: Set<Seq<char>>,
    /// The candidates that wait to be looked at, oldest first.
    pub pending: Seq<UrlView>,
    /// The number of tasks handed out and not yet reported back.
    pub in_flight: nat,
    /// The texts of the URLs visited so far, in the order of their visits.
    pub stream: Seq<Seq<char>>,
}

/// What the owner of the frontier does next.
#[derive(Debug)]
pub enum Step {
    /// Announce the visit of this URL and hand it to a task.
    Visit(Url),
    /// Nothing is pending, but tasks are in flight: wait for one to finish.
    Wait,
    /// Nothing is pending and nothing is in flight: the crawl is over.
    Done,
}

/// The mathematical value of a [`Step`].
pub enum StepView {
    Visit(UrlView),
    Wait,
    Done,
}

impl View for Step {
    type V = StepView;

    open spec fn view(&self) -> StepView {
        match *self {
            Step::Visit(url) => StepView::Visit(url@),
            Step::Wait => StepView::Wait,
            Step::Done => StepView::Done,
        }
    }
}

/// The frontier and dedup controller of one crawl.
pub struct Frontier {
    visited: StringHashSet,
    pending: VecDeque<Url>,
    /// The number of task reports taken in. Every URL seen was handed to a
    /// task, so the tasks in flight are the URLs seen less this number.
    reported: usize,
    stream: Ghost<Seq<Seq<char>>>,
}

/// What holds of the frontier at all times: the stream of visits holds
/// exactly the URLs seen, each of them once, and no more tasks are in flight
/// than visits were made.
pub open spec fn inv(v: FrontierView) -> bool {
    &&& v.visited.finite()
    &&& v.stream.no_duplicates()
    &&& v.stream.to_set() == v.visited
    &&& v.in_flight <= v.stream.len()
}

/// The candidates that are left once the ones in front that have been seen
/// already are dropped.
pub open spec fn skip_visited(visited: Set<Seq<char>>, pending: Seq<UrlView>) -> Seq<UrlView>
    decreases pending.len(),
{
    if pending.len() > 0 && visited.contains(pending[0].text) {
        skip_visited(visited, pending.drop_first())
    } else {
        pending
    }
}

/// The step that a frontier of value `pre` takes.
pub open spec fn next_step(pre: FrontierView) -> StepView {
    let rest = skip_visited(pre.visited, pre.pending);
    if rest.len() > 0 {
        StepView::Visit(rest[0])
    } else if pre.in_flight > 0 {
        StepView::Wait
    } else {
        StepView::Done
    }
}

/// The value of the frontier after that step: the candidates seen before are
/// gone from the front of the queue, and the first new one, if there is one,
/// is marked as seen, appended to the stream and counted as in flight.
pub open spec fn next_state(pre: FrontierView) -> FrontierView {
    let rest = skip_visited(pre.visited, pre.pending);
    if rest.len() > 0 {
        FrontierView {
            visited: pre.visited.insert(rest[0].text),
            pending: rest.drop_first(),
            in_flight: pre.in_flight + 1,
            stream: pre.stream.push(rest[0].text),
        }
    } else {
        FrontierView { pending: Seq::empty(), ..pre }
    }
}

/// The value of the frontier after a task has reported `children`: they
/// queue up behind the pending candidates and one task less is in flight.
/// With no task in flight there is nothing to report, and nothing changes.
pub open spec fn after_task(pre: FrontierView, children: Seq<UrlView>) -> FrontierView {
    if pre.in_flight > 0 {
        FrontierView {
            pending: pre.pending + children,
            in_flight: (pre.in_flight - 1) as nat,
            ..pre
        }
    } else {
        pre
    }
}

/// What can happen to a frontier: its owner asks for the next step, or a
/// task reports its children.
pub enum Event {
    Step,
    Report(Seq<UrlView>),
}

/// The value of a fresh frontier: the seed is its only candidate, nothing has
/// been seen and nothing is in flight.
pub open spec fn start(seed: UrlView) -> FrontierView {
    FrontierView { visited: Set::empty(), pending: seq![seed], in_flight: 0, stream: Seq::empty() }
}

/// The value of the frontier after one event.
pub open spec fn apply(pre: FrontierView, event: Event) -> FrontierView {
    match event {
        Event::Step => next_state(pre),
        Event::Report(children) => after_task(pre, children),
    }
}

/// The value of the frontier that started from `seed` after `events`, in
/// whatever order steps and reports came.
pub open spec fn run(seed: UrlView, events: Seq<Event>) -> FrontierView
    decreases events.len(),
{
    if events.len() == 0 {
        start(seed)
    } else {
        apply(run(seed, events.drop_last()), events.last())
    }
}

/// The number of reports among `events` that found a task in flight, and so
/// were taken in.
pub open spec fn reports_taken(seed: UrlView, events: Seq<Event>) -> nat
    decreases events.len(),
{
    if events.len() == 0 {
        0
    } else {
        let earlier = reports_taken(seed, events.drop_last());
        if events.last() is Report && run(seed, events.drop_last()).in_flight > 0 {
            earlier + 1
        } else {
            earlier
        }
    }
}

/// The link graph is closed: the seed and every reported child belong to
/// the finite set `graph`.
pub open spec fn closed_over(graph: Set<Seq<char>>, seed: UrlView, events: Seq<Event>) -> bool {
    &&& graph.finite()
    &&& graph.contains(seed.text)
    &&& forall|i: int, j: int|
        0 <= i < events.len() && events[i] is Report && 0 <= j < events[i]->Report_0.len()
            ==> graph.contains(#[trigger] events[i]->Report_0[j].text)
}

/// Every URL that the frontier knows of belongs to `graph`.
pub open spec fn within(v: FrontierView, graph: Set<Seq<char>>) -> bool {
    &&& v.visited.subset_of(graph)
    &&& forall|i: int| 0 <= i < v.pending.len() ==> graph.contains(#[trigger] v.pending[i].text)
}

/// The URLs of `graph` not yet visited plus the tasks in flight: the number
/// of task reports that can still come in.
pub open spec fn budget(v: FrontierView, graph: Set<Seq<char>>) -> int {
    graph.len() - v.visited.len() + v.in_flight
}

/// `skip_visited` drops a run of seen candidates from the front and keeps the
/// rest as it is; what it keeps does not start with a seen candidate.
pub proof fn lemma_skip_visited(visited: Set<Seq<char>>, pending: Seq<UrlView>)
    ensures
        ({
            let rest = skip_visited(visited, pending);
            let dropped = pending.len() - rest.len();
            &&& 0 <= dropped <= pending.len()
            &&& rest == pending.skip(dropped)
            &&& forall|j: int| 0 <= j < dropped ==> visited.contains(#[trigger] pending[j].text)
            &&& rest.len() > 0 ==> !visited.contains(rest[0].text)
        }),
    decreases pending.len(),
{
    if pending.len() > 0 && visited.contains(pending[0].text) {
        let tail = pending.drop_first();
        lemma_skip_visited(visited, tail);
        let rest = skip_visited(visited, tail);
        let dropped = tail.len() - rest.len();
        assert(tail.skip(dropped) =~= pending.skip(dropped + 1));
        assert forall|j: int| 0 <= j < dropped + 1 implies visited.contains(
            #[trigger] pending[j].text,
        ) by {
            if j > 0 {
                assert(pending[j] == tail[j - 1]);
            }
        }
    } else {
        assert(pending.skip(0) =~= pending);
    }
}

/// Each URL is visited at most once: a URL that has been seen stands in the
/// stream of visits at exactly one place, and a URL that has not been seen
/// stands nowhere in it.
pub proof fn lemma_visited_once(v: FrontierView, url: Seq<char>)
    requires
        inv(v),
    ensures
        v.visited.contains(url) ==> exists|i: int|
            0 <= i < v.stream.len() && #[trigger] v.stream[i] == url && forall|j: int|
                0 <= j < v.stream.len() && v.stream[j] == url ==> j == i,
        !v.visited.contains(url) ==> forall|j: int| 0 <= j < v.stream.len() ==> v.stream[j] != url,
{
    if v.visited.contains(url) {
        assert(v.stream.to_set().contains(url));
        assert(v.stream.contains(url));
        let i = choose|i: int| 0 <= i < v.stream.len() && v.stream[i] == url;
        assert(v.stream[i] == url);
    } else {
        assert forall|j: int| 0 <= j < v.stream.len() implies v.stream[j] != url by {
            if v.stream[j] == url {
                assert(v.stream.contains(url));
                assert(v.stream.to_set().contains(url));
            }
        }
    }
}

/// A step keeps the invariant, and a visit is always of a URL not seen
/// before.
pub proof fn lemma_next_keeps_inv(pre: FrontierView)
    requires
        inv(pre),
    ensures
        inv(next_state(pre)),
        next_step(pre) matches StepView::Visit(url) ==> !pre.visited.contains(url.text)
            && next_state(pre).stream == pre.stream.push(url.text),
        !(next_step(pre) is Visit) ==> next_state(pre).stream == pre.stream,
{
    lemma_skip_visited(pre.visited, pre.pending);
    let rest = skip_visited(pre.visited, pre.pending);
    let post = next_state(pre);
    if rest.len() > 0 {
        let text = rest[0].text;
        assert(!pre.stream.contains(text)) by {
            if pre.stream.contains(text) {
                assert(pre.stream.to_set().contains(text));
            }
        }
        assert(post.stream.no_duplicates());
        assert(post.stream.to_set() =~= pre.visited.insert(text)) by {
            assert forall|u: Seq<char>| post.stream.to_set().contains(u) implies pre.visited.insert(
                text,
            ).contains(u) by {
                let i = choose|i: int| 0 <= i < post.stream.len() && post.stream[i] == u;
                if i < pre.stream.len() {
                    assert(pre.stream[i] == u);
                    assert(pre.stream.contains(u));
                    assert(pre.stream.to_set().contains(u));
                }
            }
            assert forall|u: Seq<char>| pre.visited.insert(text).contains(u) implies post.stream.to_set().contains(
                u,
            ) by {
                if u == text {
                    assert(post.stream[pre.stream.len() as int] == u);
                } else {
                    assert(pre.stream.to_set().contains(u));
                    let i = choose|i: int| 0 <= i < pre.stream.len() && pre.stream[i] == u;
                    assert(post.stream[i] == u);
                }
            }
        }
    }
}

/// A task report keeps the invariant and leaves the stream of visits alone.
pub proof fn lemma_task_keeps_inv(pre: FrontierView, children: Seq<UrlView>)
    requires
        inv(pre),
    ensures
        inv(after_task(pre, children)),
        after_task(pre, children).stream == pre.stream,
        after_task(pre, children).visited == pre.visited,
{
}

/// On a closed link graph the crawl visits no more URLs than the graph
/// holds: the stream of visits is never longer than the graph is large.
pub proof fn lemma_stream_bounded(v: FrontierView, graph: Set<Seq<char>>)
    requires
        inv(v),
        graph.finite(),
        v.visited.subset_of(graph),
    ensures
        v.stream.len() == v.visited.len(),
        v.stream.len() <= graph.len(),
        budget(v, graph) >= 0,
{
    v.stream.unique_seq_to_set();
    vstd::set_lib::lemma_len_subset(v.visited, graph);
}

/// On a closed link graph a step never leaves the graph, and it makes
/// progress: a visit shortens the queue and leaves the budget as it is; a
/// wait leaves an empty queue with tasks in flight, so that a report is
/// due; and when the crawl is over, nothing is pending or in flight.
pub proof fn lemma_next_progress(pre: FrontierView, graph: Set<Seq<char>>)
    requires
        inv(pre),
        graph.finite(),
        within(pre, graph),
    ensures
        within(next_state(pre), graph),
        budget(next_state(pre), graph) == budget(pre, graph),
        next_step(pre) is Visit ==> next_state(pre).pending.len() < pre.pending.len(),
        next_step(pre) is Wait ==> next_state(pre).pending.len() == 0 && next_state(pre).in_flight
            > 0,
        next_step(pre) is Done ==> next_state(pre).pending.len() == 0 && next_state(pre).in_flight
            == 0,
{
    lemma_skip_visited(pre.visited, pre.pending);
    let rest = skip_visited(pre.visited, pre.pending);
    let post = next_state(pre);
    let dropped = pre.pending.len() - rest.len();
    if rest.len() > 0 {
        assert(rest[0] == pre.pending[dropped]);
        assert(graph.contains(rest[0].text));
        assert forall|i: int| 0 <= i < post.pending.len() implies graph.contains(
            #[trigger] post.pending[i].text,
        ) by {
            assert(post.pending[i] == pre.pending[dropped + 1 + i]);
        }
    }
}

/// On a closed link graph a task report never leaves the graph, and it uses
/// up one unit of the budget, however many children it brings.
pub proof fn lemma_task_progress(pre: FrontierView, children: Seq<UrlView>, graph: Set<Seq<char>>)
    requires
        inv(pre),
        graph.finite(),
        within(pre, graph),
        pre.in_flight > 0,
        forall|i: int| 0 <= i < children.len() ==> graph.contains(#[trigger] children[i].text),
    ensures
        within(after_task(pre, children), graph),
        budget(after_task(pre, children), graph) == budget(pre, graph) - 1,
{
    let post = after_task(pre, children);
    assert forall|i: int| 0 <= i < post.pending.len() implies graph.contains(
        #[trigger] post.pending[i].text,
    ) by {
        if i < pre.pending.len() {
            assert(post.pending[i] == pre.pending[i]);
        } else {
            assert(post.pending[i] == children[i - pre.pending.len()]);
        }
    }
}

/// The invariant holds after any run of events.
pub proof fn lemma_run_keeps_inv(seed: UrlView, events: Seq<Event>)
    ensures
        inv(run(seed, events)),
    decreases events.len(),
{
    if events.len() == 0 {
        assert(start(seed).stream.to_set() =~= Set::<Seq<char>>::empty());
    } else {
        lemma_run_keeps_inv(seed, events.drop_last());
        let before = run(seed, events.drop_last());
        match events.last() {
            Event::Step => lemma_next_keeps_inv(before),
            Event::Report(children) => lemma_task_keeps_inv(before, children),
        }
    }
}

/// Whatever is discovered, and in whatever order: no URL is visited twice.
/// Two different places of the stream of visits hold two different URLs.
pub proof fn lemma_no_url_visited_twice(seed: UrlView, events: Seq<Event>, i: int, j: int)
    requires
        0 <= i < run(seed, events).stream.len(),
        0 <= j < run(seed, events).stream.len(),
        i != j,
    ensures
        run(seed, events).stream[i] != run(seed, events).stream[j],
{
    lemma_run_keeps_inv(seed, events);
}

/// On a closed link graph the crawl is finite: after any run of events no
/// more URLs have been visited than the graph holds, and no more reports
/// have been taken in. Each report that is taken in uses up one unit of a
/// budget that starts at the size of the graph and never grows.
pub proof fn lemma_closed_graph_bounds_the_crawl(
    graph: Set<Seq<char>>,
    seed: UrlView,
    events: Seq<Event>,
)
    requires
        closed_over(graph, seed, events),
    ensures
        inv(run(seed, events)),
        within(run(seed, events), graph),
        budget(run(seed, events), graph) == graph.len() - reports_taken(seed, events),
        run(seed, events).stream.len() <= graph.len(),
        reports_taken(seed, events) <= graph.len(),
    decreases events.len(),
{
    lemma_run_keeps_inv(seed, events);
    if events.len() == 0 {
        assert(within(start(seed), graph));
    } else {
        let earlier = events.drop_last();
        assert forall|i: int, j: int|
            0 <= i < earlier.len() && earlier[i] is Report && 0 <= j < earlier[i]->Report_0.len()
            implies graph.contains(#[trigger] earlier[i]->Report_0[j].text) by {
            assert(earlier[i] == events[i]);
        }
        lemma_closed_graph_bounds_the_crawl(graph, seed, earlier);
        let before = run(seed, earlier);
        match events.last() {
            Event::Step => lemma_next_progress(before, graph),
            Event::Report(children) => {
                if before.in_flight > 0 {
                    assert forall|j: int| 0 <= j < children.len() implies graph.contains(
                        #[trigger] children[j].text,
                    ) by {
                        assert(events[events.len() - 1]->Report_0[j] == children[j]);
                    }
                    lemma_task_progress(before, children, graph);
                }
            },
        }
    }
    lemma_stream_bounded(run(seed, events), graph);
}

impl View for Frontier {
    type V = FrontierView;

    closed spec fn view(&self) -> FrontierView {
        FrontierView {
            visited: self.visited@,
            pending: urls_view(self.pending@),
            in_flight: (self.visited@.len() - self.reported) as nat,
            stream: self.stream@,
        }
    }
}

impl Frontier {
    /// The invariant of the frontier.
    pub closed spec fn wf(&self) -> bool {
        &&& inv(self@)
        &&& self.reported <= self.visited@.len()
    }

    /// A well-formed frontier has a value that satisfies [`inv`].
    pub proof fn lemma_wf_inv(&self)
        requires
            self.wf(),
        ensures
            inv(self@),
    {
    }

    /// A frontier with the seed as its only candidate: nothing seen, nothing
    /// in flight.
    pub fn new(seed: Url) -> (frontier: Self)
        ensures
            frontier.wf(),
            inv(frontier@),
            frontier@ == start(seed@),
    {
        let mut pending: VecDeque<Url> = VecDeque::new();
        pending.push_back(seed);
        let frontier = Frontier {
            visited: StringHashSet::new(),
            pending,
            reported: 0,
            stream: Ghost(Seq::empty()),
        };
        assert(frontier@.pending =~= seq![seed@]);
        assert(frontier@.stream.to_set() =~= Set::empty());
        frontier
    }

    /// Whether the URL with this text has been seen.
    pub fn has_seen(&self, text: &str) -> (seen: bool)
        ensures
            seen == self@.visited.contains(text@),
    {
        self.visited.contains(text)
    }

    /// The number of tasks handed out and not yet reported back.
    pub fn in_flight(&self) -> (n: usize)
        requires
            self.wf(),
        ensures
            n == self@.in_flight,
    {
        self.visited.len() - self.reported
    }

    /// Decides the next step. Candidates that have been seen are dropped from
    /// the front of the queue. The first one that has not is marked as seen
    /// and handed out for its visit. With no candidate left the owner waits
    /// while tasks are in flight, and is done when none is.
    pub fn next(&mut self) -> (step: Step)
        requires
            old(self).wf(),
        ensures
            final(self).wf(),
            step@ == next_step(old(self)@),
            final(self)@ == next_state(old(self)@),
    {
        proof {
            lemma_next_keeps_inv(self@);
        }
        loop
            invariant
                self.wf(),
                self@.visited == old(self)@.visited,
                self@.in_flight == old(self)@.in_flight,
                self@.stream == old(self)@.stream,
                skip_visited(self@.visited, self@.pending) == skip_visited(
                    old(self)@.visited,
                    old(self)@.pending,
                ),
                inv(next_state(old(self)@)),
            decreases self.pending@.len(),
        {
            let ghost before = self.pending@;
            match self.pending.pop_front() {
                None => {
                    assert(self@.pending =~= Seq::<UrlView>::empty());
                    return if self.visited.len() > self.reported {
                        Step::Wait
                    } else {
                        Step::Done
                    };
                },
                Some(url) => {
                    assert(urls_view(self.pending@) =~= urls_view(before).drop_first());
                    assert(urls_view(before)[0] == url@);
                    if !self.visited.contains(url.as_str()) {
                        self.visited.insert(url.as_str().to_owned());
                        proof {
                            self.stream@ = self.stream@.push(url@.text);
                        }
                        return Step::Visit(url);
                    }
                },
            }
        }
    }

    /// Takes in the report of a finished task: its children queue up as
    /// candidates and the task no longer counts as in flight. Returns `false`,
    /// and changes nothing, when no task is in flight.
    pub fn task_done(&mut self, children: Vec<Url>) -> (accepted: bool)
        requires
            old(self).wf(),
        ensures
            final(self).wf(),
            accepted == (old(self)@.in_flight > 0),
            final(self)@ == after_task(old(self)@, urls_view(children@)),
    {
        if self.visited.len() <= self.reported {
            return false;
        }
        self.reported = self.reported + 1;
        let ghost start = urls_view(self.pending@);
        for child in it: children
            invariant
                it.seq() == children@,
                start == old(self)@.pending,
                self@.visited == old(self)@.visited,
                self@.stream == old(self)@.stream,
                self@.in_flight == old(self)@.in_flight - 1,
                self@.pending == start + urls_view(children@.take(it.index() as int)),
                self.reported <= self.visited@.len(),
                inv(old(self)@),
        {
            let ghost queued = urls_view(self.pending@);
            self.pending.push_back(child);
            assert(urls_view(self.pending@) =~= queued.push(child@));
            assert(urls_view(children@.take(it.index() + 1)) =~= urls_view(
                children@.take(it.index() as int),
            ).push(child@));
        }
        assert(children@.take(children@.len() as int) =~= children@);
        true
    }
}

} // verus!
