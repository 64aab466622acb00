//! The extraction step: what one worker does with one fetched document.
//!
//! A URL is claimed in the visited index at the moment it is first
//! discovered, and that claim is the single gate for scheduling: a candidate
//! whose claim succeeds is returned for enqueueing, one whose claim fails is
//! recorded in the link graph but never scheduled again. A page that is
//! scheduled therefore already holds its (initially empty) index entry, and a
//! page whose body cannot be read keeps that empty entry for the whole run.

use vstd::prelude::*;

verus! {

use crate::index::{Index, spec_record};
use crate::messages::Response;
use crate::urls::{get_urls, parse_url, norm_of, hrefs_of, href_fails, links_of};

/// What an extraction worker does next.
pub enum ProcessorAction {
    /// Leave the loop: the run is shutting down, or the response queue is
    /// closed and no more work will come.
    Exit,
    /// Work through this response.
    Handle(Response),
}

/// Decide one turn of the extraction loop from what the worker woke up to:
/// the shutdown signal wins over work, and a closed queue ends the loop
/// rather than spinning.
pub fn processor_step(shutdown: bool, next: Option<Response>) -> (action: ProcessorAction)
    ensures
        shutdown ==> action is Exit,
        !shutdown ==> match next {
            None => action is Exit,
            Some(resp) => (action matches ProcessorAction::Handle(r) && r == resp),
        },
{
    if shutdown {
        return ProcessorAction::Exit;
    }
    match next {
        None => ProcessorAction::Exit,
        Some(resp) => ProcessorAction::Handle(resp),
    }
}

/// One candidate link: a candidate that is not a valid URL is dropped; a
/// valid one is recorded under the source and, exactly when its claim
/// succeeds, appended to the URLs to schedule.
pub open spec fn step_candidate(
    m: Map<Seq<char>, Set<Seq<char>>>,
    enq: Seq<Seq<char>>,
    source: Seq<char>,
    cand: Seq<char>,
) -> (Map<Seq<char>, Set<Seq<char>>>, Seq<Seq<char>>) {
    match norm_of(cand) {
        None => (m, enq),
        Some(l) => {
            let m1 = spec_record(m, source, l);
            if !m1.dom().contains(l) {
                (m1.insert(l, Set::empty()), enq.push(l))
            } else {
                (m1, enq)
            }
        },
    }
}

/// The index contents and the URLs to schedule after working through a
/// page's candidate links, in document order.
pub open spec fn run_candidates(
    m: Map<Seq<char>, Set<Seq<char>>>,
    source: Seq<char>,
    cands: Seq<Seq<char>>,
) -> (Map<Seq<char>, Set<Seq<char>>>, Seq<Seq<char>>)
    decreases cands.len(),
{
    if cands.len() == 0 {
        (m, Seq::empty())
    } else {
        let prev = run_candidates(m, source, cands.drop_last());
        step_candidate(prev.0, prev.1, source, cands.last())
    }
}

/// Whether some candidate in the list resolves (parses) to this URL.
pub open spec fn resolves(cs: Seq<Seq<char>>, u: Seq<char>) -> bool {
    exists|i: int| 0 <= i < cs.len() && norm_of(#[trigger] cs[i]) == Some(u)
}

/// A candidate list resolves to a URL exactly when the leading part does or
/// the last candidate does.
proof fn lemma_resolves_unfold(cs: Seq<Seq<char>>, u: Seq<char>)
    requires
        cs.len() > 0,
    ensures
        resolves(cs, u) <==> (resolves(cs.drop_last(), u) || norm_of(cs.last()) == Some(u)),
{
    let head = cs.drop_last();
    assert(forall|j: int| 0 <= j < head.len() ==> head[j] == cs[j]);
    if resolves(cs, u) {
        let i = choose|i: int| 0 <= i < cs.len() && norm_of(cs[i]) == Some(u);
        if i < cs.len() - 1 {
            assert(norm_of(head[i]) == Some(u));
        }
    }
    if resolves(head, u) {
        let i = choose|i: int| 0 <= i < head.len() && norm_of(head[i]) == Some(u);
        assert(norm_of(cs[i]) == Some(u));
    }
}

/// After a page's candidates are worked through, a URL is an entry exactly
/// when it was one before or some candidate resolves to it.
proof fn lemma_run_dom(
    m: Map<Seq<char>, Set<Seq<char>>>,
    source: Seq<char>,
    cs: Seq<Seq<char>>,
    u: Seq<char>,
)
    ensures
        run_candidates(m, source, cs).0.dom().contains(u) <==> (m.dom().contains(u) || resolves(
            cs,
            u,
        )),
    decreases cs.len(),
{
    if cs.len() > 0 {
        lemma_run_dom(m, source, cs.drop_last(), u);
        lemma_resolves_unfold(cs, u);
    }
}

/// A worked-through page schedules a URL exactly when it was not yet an entry
/// and some candidate resolves to it.
proof fn lemma_run_enqueue(
    m: Map<Seq<char>, Set<Seq<char>>>,
    source: Seq<char>,
    cs: Seq<Seq<char>>,
    u: Seq<char>,
)
    ensures
        run_candidates(m, source, cs).1.contains(u) <==> (!m.dom().contains(u) && resolves(cs, u)),
    decreases cs.len(),
{
    if cs.len() > 0 {
        let head = cs.drop_last();
        let prev = run_candidates(m, source, head);
        lemma_run_enqueue(m, source, head, u);
        lemma_resolves_unfold(cs, u);
        match norm_of(cs.last()) {
            Some(l) => {
                lemma_run_dom(m, source, head, l);
                let m1 = spec_record(prev.0, source, l);
                if !m1.dom().contains(l) {
                    assert(prev.1.push(l).contains(u) <==> (prev.1.contains(u) || u == l)) by {
                        assert(prev.1.push(l)[prev.1.len() as int] == l);
                        if prev.1.contains(u) {
                            let i = choose|i: int| 0 <= i < prev.1.len() && prev.1[i] == u;
                            assert(prev.1.push(l)[i] == u);
                        }
                        if prev.1.push(l).contains(u) {
                            let i = choose|i: int|
                                0 <= i < prev.1.push(l).len() && prev.1.push(l)[i] == u;
                            if i < prev.1.len() {
                                assert(prev.1[i] == u);
                            }
                        }
                    }
                }
            },
            None => {},
        }
    }
}

/// Working through a page's candidates changes no other entry's set, and adds
/// to the page's own set exactly the URLs its candidates resolve to.
proof fn lemma_run_values(
    m: Map<Seq<char>, Set<Seq<char>>>,
    source: Seq<char>,
    cs: Seq<Seq<char>>,
    k: Seq<char>,
    x: Seq<char>,
)
    requires
        m.dom().contains(k),
    ensures
        run_candidates(m, source, cs).0[k].contains(x) <==> (m[k].contains(x) || (k == source
            && resolves(cs, x))),
    decreases cs.len(),
{
    if cs.len() > 0 {
        let head = cs.drop_last();
        lemma_run_values(m, source, head, k, x);
        lemma_resolves_unfold(cs, x);
        match norm_of(cs.last()) {
            Some(l) => {
                lemma_run_dom(m, source, head, k);
                lemma_run_dom(m, source, head, source);
            },
            None => {},
        }
    }
}

/// Whatever a run schedules it has claimed: every URL in the scheduled list
/// is an entry afterwards.
proof fn lemma_enqueued_claimed(
    m: Map<Seq<char>, Set<Seq<char>>>,
    source: Seq<char>,
    cs: Seq<Seq<char>>,
    u: Seq<char>,
)
    ensures
        run_candidates(m, source, cs).1.contains(u) ==> run_candidates(
            m,
            source,
            cs,
        ).0.dom().contains(u),
{
    lemma_run_enqueue(m, source, cs, u);
    lemma_run_dom(m, source, cs, u);
}

/// Scheduling law: one run schedules each URL at most once — a page whose
/// candidates resolve to one URL several times gets one request for it, the
/// duplicates are only linked.
pub proof fn lemma_schedule_once(
    m: Map<Seq<char>, Set<Seq<char>>>,
    source: Seq<char>,
    cs: Seq<Seq<char>>,
    i: int,
    j: int,
)
    requires
        0 <= i < j < run_candidates(m, source, cs).1.len(),
    ensures
        run_candidates(m, source, cs).1[i] != run_candidates(m, source, cs).1[j],
    decreases cs.len(),
{
    let run = run_candidates(m, source, cs);
    if cs.len() > 0 {
        let head = cs.drop_last();
        let prev = run_candidates(m, source, head);
        if j < prev.1.len() {
            lemma_schedule_once(m, source, head, i, j);
        } else {
            // The last candidate pushed run.1[j]; its claim won, so it was no
            // entry yet, while everything scheduled earlier already is one.
            assert(run.1 == prev.1.push(run.1[j]));
            assert(prev.1.contains(prev.1[i]));
            lemma_enqueued_claimed(m, source, head, prev.1[i]);
            match norm_of(cs.last()) {
                Some(l) => {
                    assert(run.1[j] == l);
                },
                None => {},
            }
        }
    }
}

/// Concurrent discovery law: two claimed pages worked through one after the
/// other, both carrying candidates for one hitherto unseen URL: each page
/// records that URL in its own link set, and exactly the first schedules it.
pub proof fn lemma_discovery_once(
    m0: Map<Seq<char>, Set<Seq<char>>>,
    s1: Seq<char>,
    cs1: Seq<Seq<char>>,
    s2: Seq<char>,
    cs2: Seq<Seq<char>>,
    x: Seq<char>,
)
    requires
        m0.dom().contains(s1),
        m0.dom().contains(s2),
        s1 != s2,
        !m0.dom().contains(x),
        resolves(cs1, x),
        resolves(cs2, x),
    ensures
        ({
            let r1 = run_candidates(m0, s1, cs1);
            let r2 = run_candidates(r1.0, s2, cs2);
            &&& r1.1.contains(x)
            &&& !r2.1.contains(x)
            &&& r2.0[s1].contains(x)
            &&& r2.0[s2].contains(x)
        }),
{
    let r1 = run_candidates(m0, s1, cs1);
    let r2 = run_candidates(r1.0, s2, cs2);
    lemma_run_enqueue(m0, s1, cs1, x);
    lemma_run_dom(m0, s1, cs1, x);
    lemma_run_enqueue(r1.0, s2, cs2, x);
    lemma_run_values(m0, s1, cs1, s1, x);
    lemma_run_dom(m0, s1, cs1, s1);
    lemma_run_dom(m0, s1, cs1, s2);
    lemma_run_values(r1.0, s2, cs2, s1, x);
    lemma_run_values(r1.0, s2, cs2, s2, x);
}

/// The candidate links one response contributes: `None` where the page's own
/// URL does not parse or a local link fails to resolve — such a response is
/// dropped whole.
pub open spec fn response_links(source: Seq<char>, body: Seq<char>) -> Option<Seq<Seq<char>>> {
    match norm_of(source) {
        None => None,
        Some(u) => {
            if exists|i: int|
                0 <= i < hrefs_of(body).len() && href_fails(u, #[trigger] hrefs_of(body)[i]) {
                None
            } else {
                Some(links_of(u, hrefs_of(body)))
            }
        },
    }
}

/// Work through one fetched document: extract its links, record each valid
/// one in the visited index under the page's URL, and return — in document
/// order — exactly those whose claim this call won, for scheduling. A page
/// whose links cannot be extracted changes nothing and schedules nothing.
pub fn process_response(index: &mut Index, source: &str, body: &str) -> (enq: Vec<String>)
    ensures
        match response_links(source@, body@) {
            None => final(index)@ == old(index)@ && enq@.len() == 0,
            Some(cands) => final(index)@ == run_candidates(old(index)@, source@, cands).0
                && enq.deep_view() == run_candidates(old(index)@, source@, cands).1,
        },
{
    let ghost m0 = index@;
    let urls = match get_urls(source, body) {
        Ok(urls) => urls,
        Err(_) => {
            return Vec::new();
        },
    };
    let ghost cands = response_links(source@, body@)->Some_0;
    proof {
        assert(urls.deep_view() == cands);
    }
    let mut enq: Vec<String> = Vec::new();
    let n = urls.len();
    let mut i: usize = 0;
    while i < n
        invariant
            n == urls.len(),
            urls.deep_view() == cands,
            i <= n,
            index@ == run_candidates(m0, source@, cands.subrange(0, i as int)).0,
            enq.deep_view() == run_candidates(m0, source@, cands.subrange(0, i as int)).1,
        decreases n - i,
    {
        assert(urls[i as int]@ == cands[i as int]);
        match parse_url(urls[i].as_str()) {
            Some(link) => {
                index.record_link(source, link.as_str());
                if index.try_claim(link.as_str()) {
                    enq.push(link);
                }
            },
            None => {},
        }
        proof {
            assert(cands.subrange(0, i + 1).drop_last() =~= cands.subrange(0, i as int));
            assert(cands.subrange(0, i + 1).last() == cands[i as int]);
            assert(enq.deep_view() =~= run_candidates(m0, source@, cands.subrange(0, i + 1)).1);
        }
        i += 1;
    }
    proof {
        assert(cands.subrange(0, n as int) =~= cands);
    }
    enq
}

} // verus!
