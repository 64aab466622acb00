//! The visited-URL index: a concurrent map from each crawled page to the set
//! of links found on it. Inserting the (initially empty) entry for a URL is
//! the atomic *claim* that decides, once and for all, which caller schedules
//! that URL; the link set is filled in as the page's links are resolved.

use vstd::prelude::*;

verus! {

#[verifier::external_type_specification]
#[verifier::external_body]
#[verifier::reject_recursive_types(K)]
#[verifier::reject_recursive_types(V)]
#[verifier::reject_recursive_types(S)]
pub struct ExDashMap<K, V, S>(dashmap::DashMap<K, V, S>);

#[verifier::external_type_specification]
#[verifier::external_body]
#[verifier::reject_recursive_types(K)]
#[verifier::reject_recursive_types(S)]
pub struct ExDashSet<K, S>(dashmap::DashSet<K, S>);

/// What the index's underlying map holds: each claimed URL, mapped to the set
/// of link targets recorded for it.
pub uninterp spec fn index_contents(
    m: dashmap::DashMap<String, dashmap::DashSet<String>>,
) -> Map<Seq<char>, Set<Seq<char>>>;

/// The contents of an index with nothing claimed.
pub open spec fn empty_index() -> Map<Seq<char>, Set<Seq<char>>> {
    Map::empty()
}

/// Relies on `dashmap::DashMap::new`: a freshly created map is empty.
#[verifier::external_body]
fn dm_new() -> (m: dashmap::DashMap<String, dashmap::DashSet<String>>)
    ensures
        index_contents(m) == empty_index(),
{
    dashmap::DashMap::new()
}

/// Relies on `dashmap::DashMap::entry`: the check for the key and the
/// insertion of a fresh empty set are one atomic operation under the entry's
/// lock, so of any number of concurrent claims of one URL exactly one sees
/// the vacant entry. `dashmap::DashSet::new` makes the empty set.
#[verifier::external_body]
fn dm_claim(m: &mut dashmap::DashMap<String, dashmap::DashSet<String>>, url: &str) -> (claimed:
    bool)
    ensures
        claimed == !index_contents(*old(m)).dom().contains(url@),
        claimed ==> index_contents(*final(m)) == index_contents(*old(m)).insert(
            url@,
            Set::<Seq<char>>::empty(),
        ),
        !claimed ==> index_contents(*final(m)) == index_contents(*old(m)),
{
    match m.entry(url.to_string()) {
        dashmap::mapref::entry::Entry::Occupied(_) => false,
        dashmap::mapref::entry::Entry::Vacant(entry) => {
            entry.insert(dashmap::DashSet::new());
            true
        },
    }
}

/// Relies on `dashmap::DashMap::get` and `dashmap::DashSet::insert`: the
/// target joins the source's set (inserting an element the set already holds
/// leaves the set as it is); a key the map does not hold is left alone.
#[verifier::external_body]
fn dm_record(m: &mut dashmap::DashMap<String, dashmap::DashSet<String>>, source: &str, target: &str)
    ensures
        index_contents(*old(m)).dom().contains(source@) ==> index_contents(*final(m))
            == index_contents(*old(m)).insert(
            source@,
            index_contents(*old(m))[source@].insert(target@),
        ),
        !index_contents(*old(m)).dom().contains(source@) ==> index_contents(*final(m))
            == index_contents(*old(m)),
{
    if let Some(entry) = m.get(source) {
        entry.insert(target.to_string());
    }
}

/// Relies on `dashmap::DashMap::contains_key`.
#[verifier::external_body]
fn dm_contains(m: &dashmap::DashMap<String, dashmap::DashSet<String>>, url: &str) -> (r: bool)
    ensures
        r == index_contents(*m).dom().contains(url@),
{
    m.contains_key(url)
}

/// Relies on `dashmap::DashMap::iter` and `dashmap::DashSet::iter`: the walk
/// visits every entry exactly once; its order is not promised.
#[verifier::external_body]
fn dm_snapshot(m: &dashmap::DashMap<String, dashmap::DashSet<String>>) -> (r: Vec<
    (String, Vec<String>),
>)
    ensures
        snapshot_matches(index_contents(*m), r.deep_view()),
{
    m.iter().map(
        |entry| (entry.key().clone(), entry.value().iter().map(|t| t.key().clone()).collect()),
    ).collect()
}

/// A snapshot lists exactly the claimed URLs, each exactly once, each with
/// exactly its recorded link targets (in no promised order).
pub open spec fn snapshot_matches(
    m: Map<Seq<char>, Set<Seq<char>>>,
    s: Seq<(Seq<char>, Seq<Seq<char>>)>,
) -> bool {
    &&& forall|i: int, j: int| 0 <= i < j < s.len() ==> (#[trigger] s[i]).0 != (#[trigger] s[j]).0
    &&& forall|i: int| 0 <= i < s.len() ==> m.dom().contains((#[trigger] s[i]).0)
    &&& forall|k: Seq<char>|
        #[trigger] m.dom().contains(k) ==> exists|i: int|
            0 <= i < s.len() && (#[trigger] s[i]).0 == k
    &&& forall|i: int| 0 <= i < s.len() ==> (#[trigger] s[i]).1.to_set() == m[s[i].0]
}

/// Recording a link: the target joins the source's set; a source the index
/// does not hold is left alone.
pub open spec fn spec_record(
    m: Map<Seq<char>, Set<Seq<char>>>,
    s: Seq<char>,
    t: Seq<char>,
) -> Map<Seq<char>, Set<Seq<char>>> {
    if m.dom().contains(s) {
        m.insert(s, m[s].insert(t))
    } else {
        m
    }
}

/// One operation on the index's contents, as the crawl performs them.
pub enum IndexOp {
    /// A `try_claim` of this URL.
    Claim { url: Seq<char> },
    /// A `record_link` of this source and target.
    Record { source: Seq<char>, target: Seq<char> },
}

/// What one operation does to the contents.
pub open spec fn apply_op(
    m: Map<Seq<char>, Set<Seq<char>>>,
    op: IndexOp,
) -> Map<Seq<char>, Set<Seq<char>>> {
    match op {
        IndexOp::Claim { url } => if m.dom().contains(url) {
            m
        } else {
            m.insert(url, Set::empty())
        },
        IndexOp::Record { source, target } => spec_record(m, source, target),
    }
}

/// A run of operations, applied in order.
pub open spec fn apply_ops(
    m: Map<Seq<char>, Set<Seq<char>>>,
    ops: Seq<IndexOp>,
) -> Map<Seq<char>, Set<Seq<char>>>
    decreases ops.len(),
{
    if ops.len() == 0 {
        m
    } else {
        apply_ops(apply_op(m, ops.first()), ops.drop_first())
    }
}

/// How many claims of `u` along the run win (return true).
pub open spec fn wins(m: Map<Seq<char>, Set<Seq<char>>>, ops: Seq<IndexOp>, u: Seq<char>) -> nat
    decreases ops.len(),
{
    if ops.len() == 0 {
        0nat
    } else {
        let w: nat = if ops.first() == (IndexOp::Claim { url: u }) && !m.dom().contains(u) {
            1nat
        } else {
            0nat
        };
        w + wins(apply_op(m, ops.first()), ops.drop_first(), u)
    }
}

/// Whether some claim of `u` occurs in the run.
pub open spec fn claims(ops: Seq<IndexOp>, u: Seq<char>) -> bool {
    exists|i: int| 0 <= i < ops.len() && ops[i] == (IndexOp::Claim { url: u })
}

/// Whether some record of this source and target occurs in the run.
pub open spec fn recorded(ops: Seq<IndexOp>, s: Seq<char>, t: Seq<char>) -> bool {
    exists|i: int| 0 <= i < ops.len() && ops[i] == (IndexOp::Record { source: s, target: t })
}

/// The crawl's protocol: every record in the run names a source already
/// claimed at that point, since a page is claimed before it is fetched and
/// parsed.
pub open spec fn records_covered(m: Map<Seq<char>, Set<Seq<char>>>, ops: Seq<IndexOp>) -> bool
    decreases ops.len(),
{
    if ops.len() == 0 {
        true
    } else {
        (match ops.first() {
            IndexOp::Record { source, .. } => m.dom().contains(source),
            _ => true,
        }) && records_covered(apply_op(m, ops.first()), ops.drop_first())
    }
}

/// A claim of `u` occurs in a run exactly when the first operation is one or
/// the rest holds one; likewise for records.
proof fn lemma_occurs_unfold(ops: Seq<IndexOp>, u: Seq<char>, s: Seq<char>, t: Seq<char>)
    requires
        ops.len() > 0,
    ensures
        claims(ops, u) <==> (ops.first() == (IndexOp::Claim { url: u }) || claims(
            ops.drop_first(),
            u,
        )),
        recorded(ops, s, t) <==> (ops.first() == (IndexOp::Record { source: s, target: t })
            || recorded(ops.drop_first(), s, t)),
{
    let rest = ops.drop_first();
    assert(forall|j: int| 0 <= j < rest.len() ==> rest[j] == ops[j + 1]);
    if claims(ops, u) {
        let i = choose|i: int| 0 <= i < ops.len() && ops[i] == (IndexOp::Claim { url: u });
        if i > 0 {
            assert(rest[i - 1] == ops[i]);
        }
    }
    if claims(rest, u) {
        let i = choose|i: int| 0 <= i < rest.len() && rest[i] == (IndexOp::Claim { url: u });
        assert(ops[i + 1] == rest[i]);
    }
    if recorded(ops, s, t) {
        let i = choose|i: int|
            0 <= i < ops.len() && ops[i] == (IndexOp::Record { source: s, target: t });
        if i > 0 {
            assert(rest[i - 1] == ops[i]);
        }
    }
    if recorded(rest, s, t) {
        let i = choose|i: int|
            0 <= i < rest.len() && rest[i] == (IndexOp::Record { source: s, target: t });
        assert(ops[i + 1] == rest[i]);
    }
}

/// Dedup law: over any run of index operations, claims of one URL win at
/// most once; they win exactly once when the URL starts unclaimed and some
/// claim of it occurs; and against a URL already claimed none ever wins.
pub proof fn lemma_claim_wins_once(m: Map<Seq<char>, Set<Seq<char>>>, ops: Seq<IndexOp>, u: Seq<char>)
    ensures
        m.dom().contains(u) ==> wins(m, ops, u) == 0,
        !m.dom().contains(u) && claims(ops, u) ==> wins(m, ops, u) == 1,
        wins(m, ops, u) <= 1,
    decreases ops.len(),
{
    if ops.len() > 0 {
        let op = ops.first();
        let m1 = apply_op(m, op);
        lemma_claim_wins_once(m1, ops.drop_first(), u);
        lemma_occurs_unfold(ops, u, u, u);
        if m.dom().contains(u) {
            assert(m1.dom().contains(u));
        } else if op == (IndexOp::Claim { url: u }) {
            assert(m1.dom().contains(u));
        } else {
            assert(!m1.dom().contains(u));
        }
    }
}

/// A run leaves a URL as an entry exactly when it started as one or some
/// claim of it occurs; and, under the protocol, an entry's set ends holding
/// exactly what it started with plus the targets recorded for that entry.
proof fn lemma_run_contents(m: Map<Seq<char>, Set<Seq<char>>>, ops: Seq<IndexOp>)
    requires
        records_covered(m, ops),
    ensures
        forall|u: Seq<char>|
            #[trigger] apply_ops(m, ops).dom().contains(u) <==> (m.dom().contains(u) || claims(
                ops,
                u,
            )),
        forall|s: Seq<char>, t: Seq<char>|
            m.dom().contains(s) || claims(ops, s) ==> (#[trigger] apply_ops(m, ops)[s].contains(t)
                <==> ((m.dom().contains(s) && m[s].contains(t)) || recorded(ops, s, t))),
    decreases ops.len(),
{
    if ops.len() > 0 {
        let op = ops.first();
        let m1 = apply_op(m, op);
        let rest = ops.drop_first();
        lemma_run_contents(m1, rest);
        assert forall|u: Seq<char>|
            #[trigger] apply_ops(m, ops).dom().contains(u) <==> (m.dom().contains(u) || claims(
                ops,
                u,
            )) by {
            lemma_occurs_unfold(ops, u, u, u);
            assert(apply_ops(m1, rest).dom().contains(u) <==> (m1.dom().contains(u) || claims(
                rest,
                u,
            )));
        }
        assert forall|s: Seq<char>, t: Seq<char>|
            m.dom().contains(s) || claims(ops, s) implies (#[trigger] apply_ops(m, ops)[s].contains(
            t,
        ) <==> ((m.dom().contains(s) && m[s].contains(t)) || recorded(ops, s, t))) by {
            lemma_occurs_unfold(ops, s, s, t);
            assert(m1.dom().contains(s) || claims(rest, s));
            assert(m1.dom().contains(s) || claims(rest, s) ==> (apply_ops(m1, rest)[s].contains(t)
                <==> ((m1.dom().contains(s) && m1[s].contains(t)) || recorded(rest, s, t))));
        }
    }
}

/// Link graph round-trip law: a run from an empty index leaves exactly the
/// claimed URLs as entries, each holding exactly the targets recorded for it
/// — what a snapshot at the end of the run lists.
pub proof fn lemma_round_trip(ops: Seq<IndexOp>)
    requires
        records_covered(empty_index(), ops),
    ensures
        forall|u: Seq<char>|
            #[trigger] apply_ops(empty_index(), ops).dom().contains(u) <==> claims(ops, u),
        forall|s: Seq<char>, t: Seq<char>|
            claims(ops, s) ==> (#[trigger] apply_ops(empty_index(), ops)[s].contains(t) <==>
            recorded(ops, s, t)),
{
    lemma_run_contents(empty_index(), ops);
}

/// The visited-URL index. Its view is the mapping from each claimed URL to
/// the set of links recorded for it.
pub struct Index {
    links: dashmap::DashMap<String, dashmap::DashSet<String>>,
}

impl View for Index {
    type V = Map<Seq<char>, Set<Seq<char>>>;

    closed spec fn view(&self) -> Map<Seq<char>, Set<Seq<char>>> {
        index_contents(self.links)
    }
}

impl Index {
    /// An index with nothing claimed and nothing recorded.
    pub fn new() -> (r: Self)
        ensures
            r@ == Map::<Seq<char>, Set<Seq<char>>>::empty(),
    {
        Index { links: dm_new() }
    }

    /// Claim a URL: insert an empty entry for it if none exists. Returns true
    /// exactly when this call made the insertion — the caller then owns the
    /// crawl of that URL. This is the sole dedup gate of the pipeline.
    pub fn try_claim(&mut self, url: &str) -> (claimed: bool)
        ensures
            claimed == !old(self)@.dom().contains(url@),
            claimed ==> final(self)@ == old(self)@.insert(url@, Set::<Seq<char>>::empty()),
            !claimed ==> final(self)@ == old(self)@,
    {
        dm_claim(&mut self.links, url)
    }

    /// Add a link target to a claimed source's set; a source that was never
    /// claimed is left untouched.
    pub fn record_link(&mut self, source: &str, target: &str)
        ensures
            old(self)@.dom().contains(source@) ==> final(self)@ == old(self)@.insert(
                source@,
                old(self)@[source@].insert(target@),
            ),
            !old(self)@.dom().contains(source@) ==> final(self)@ == old(self)@,
    {
        dm_record(&mut self.links, source, target)
    }

    /// Whether a URL has been claimed.
    pub fn contains(&self, url: &str) -> (r: bool)
        ensures
            r == self@.dom().contains(url@),
    {
        dm_contains(&self.links, url)
    }

    /// A read-only copy of the whole index, for the final output: every
    /// claimed URL with its recorded links, in no promised order.
    pub fn snapshot(&self) -> (r: Vec<(String, Vec<String>)>)
        ensures
            snapshot_matches(self@, r.deep_view()),
    {
        dm_snapshot(&self.links)
    }
}

} // verus!
