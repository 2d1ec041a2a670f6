//! The resolver core: arbitration among upstream answers and the decisions
//! of each receive/resolve/reply cycle.
//!
//! The outer loop that owns the socket is sequential: it hands each inbound
//! datagram to [`DnsServer::begin_cycle`], fans the query out to every
//! upstream when asked to, and hands the collected results (one slot per
//! upstream, in configuration order) to [`DnsServer::finish_resolve`]. Both
//! steps work on plain bytes and an explicit clock value, so the whole
//! policy — cache use, arbitration, id rewriting — is stated in contracts.

use vstd::prelude::*;

use crate::cache::{fresh_at, ResponseCache};
use crate::msg::{
    classify_response, copy_bytes, extract_query_key, lemma_classified_has_header, lemma_with_id,
    rewrite_id, spec_classify, spec_id, spec_query_key, u16_from, with_id, QueryKey,
    ResponseClassification, HEADER_LEN,
};

verus! {

/// How one upstream slot ranks: a missing response (timeout or transport
/// failure) is unusable, bytes rank by their classification.
pub open spec fn result_class(r: Option<Seq<u8>>) -> ResponseClassification {
    match r {
        Option::None => ResponseClassification::Unusable,
        Option::Some(d) => spec_classify(d),
    }
}

/// The responses of the given classification, in upstream order.
pub open spec fn selected(
    rs: Seq<Option<Seq<u8>>>,
    want: ResponseClassification,
) -> Seq<Seq<u8>>
    decreases rs.len(),
{
    if rs.len() == 0 {
        Seq::empty()
    } else {
        let rest = selected(rs.drop_first(), want);
        if result_class(rs[0]) == want {
            seq![rs[0]->Some_0] + rest
        } else {
            rest
        }
    }
}

/// The arbitration policy: candidates are the address-bearing responses in
/// upstream order; when there is none, the answer-bearing responses in
/// upstream order; the winner is the first candidate.
pub open spec fn candidates(rs: Seq<Option<Seq<u8>>>) -> Seq<Seq<u8>> {
    if selected(rs, ResponseClassification::WithAddress).len() > 0 {
        selected(rs, ResponseClassification::WithAddress)
    } else {
        selected(rs, ResponseClassification::WithoutAddress)
    }
}

/// Every selected response classifies as asked.
pub proof fn lemma_selected_classified(rs: Seq<Option<Seq<u8>>>, want: ResponseClassification)
    requires
        want != ResponseClassification::Unusable,
    ensures
        forall|j: int| 0 <= j < selected(rs, want).len() ==> spec_classify(selected(rs, want)[j])
            == want,
    decreases rs.len(),
{
    if rs.len() > 0 {
        lemma_selected_classified(rs.drop_first(), want);
        if result_class(rs[0]) == want {
            assert forall|j: int| 0 <= j < selected(rs, want).len() implies spec_classify(
                selected(rs, want)[j],
            ) == want by {
                if j > 0 {
                    assert(selected(rs, want)[j] == selected(rs.drop_first(), want)[j - 1]);
                }
            }
        }
    }
}

/// Nothing is selected exactly when no response has the classification.
pub proof fn lemma_selected_empty_iff(rs: Seq<Option<Seq<u8>>>, want: ResponseClassification)
    ensures
        (selected(rs, want).len() == 0) <==> (forall|i: int|
            0 <= i < rs.len() ==> result_class(rs[i]) != want),
    decreases rs.len(),
{
    if rs.len() > 0 {
        lemma_selected_empty_iff(rs.drop_first(), want);
        assert(forall|i: int| 0 <= i < rs.drop_first().len() ==> rs.drop_first()[i] == rs[i + 1]);
        if result_class(rs[0]) != want {
            if forall|i: int| 0 <= i < rs.drop_first().len() ==> result_class(rs.drop_first()[i])
                != want {
                assert forall|i: int| 0 <= i < rs.len() implies result_class(rs[i]) != want by {
                    if i > 0 {
                        assert(rs[i] == rs.drop_first()[i - 1]);
                    }
                }
            }
        }
    }
}

/// The first selected response comes from the earliest upstream of that
/// classification.
pub proof fn lemma_selected_first(rs: Seq<Option<Seq<u8>>>, want: ResponseClassification)
    requires
        want != ResponseClassification::Unusable,
        exists|i: int| 0 <= i < rs.len() && result_class(rs[i]) == want,
    ensures
        selected(rs, want).len() > 0,
        exists|i: int|
            0 <= i < rs.len() && result_class(rs[i]) == want && selected(rs, want)[0] == rs[i]->Some_0
                && (forall|j: int| 0 <= j < i ==> result_class(rs[j]) != want),
    decreases rs.len(),
{
    if result_class(rs[0]) == want {
        assert(selected(rs, want)[0] == rs[0]->Some_0);
        assert(0 <= 0 < rs.len() && result_class(rs[0]) == want && selected(rs, want)[0]
            == rs[0]->Some_0 && (forall|j: int| 0 <= j < 0 ==> result_class(rs[j]) != want));
    } else {
        let w = choose|i: int| 0 <= i < rs.len() && result_class(rs[i]) == want;
        assert(rs.drop_first()[w - 1] == rs[w]);
        lemma_selected_first(rs.drop_first(), want);
        let i0 = choose|i: int|
            0 <= i < rs.drop_first().len() && result_class(rs.drop_first()[i]) == want && selected(
                rs.drop_first(),
                want,
            )[0] == rs.drop_first()[i]->Some_0 && (forall|j: int|
                0 <= j < i ==> result_class(rs.drop_first()[j]) != want);
        assert(selected(rs, want) == selected(rs.drop_first(), want));
        assert(rs.drop_first()[i0] == rs[i0 + 1]);
        assert forall|j: int| 0 <= j < i0 + 1 implies result_class(rs[j]) != want by {
            if j > 0 {
                assert(rs[j] == rs.drop_first()[j - 1]);
            }
        }
        assert(0 <= i0 + 1 < rs.len() && result_class(rs[i0 + 1]) == want && selected(rs, want)[0]
            == rs[i0 + 1]->Some_0 && (forall|j: int| 0 <= j < i0 + 1 ==> result_class(rs[j])
            != want));
    }
}

/// The selected responses keep upstream-configuration order: they sit at
/// strictly increasing upstream slots, and each is the response of its slot.
pub proof fn lemma_selected_ordered(
    rs: Seq<Option<Seq<u8>>>,
    want: ResponseClassification,
) -> (ix: Seq<int>)
    ensures
        ix.len() == selected(rs, want).len(),
        forall|j: int| 0 <= j < ix.len() ==> 0 <= #[trigger] ix[j] < rs.len(),
        forall|j: int| 0 <= j < ix.len() ==> result_class(rs[#[trigger] ix[j]]) == want && selected(
            rs,
            want,
        )[j] == rs[ix[j]]->Some_0,
        forall|j1: int, j2: int| 0 <= j1 < j2 < ix.len() ==> ix[j1] < ix[j2],
    decreases rs.len(),
{
    if rs.len() == 0 {
        Seq::empty()
    } else {
        let tail = lemma_selected_ordered(rs.drop_first(), want);
        let shifted = tail.map_values(|x: int| x + 1);
        assert(forall|j: int| 0 <= j < shifted.len() ==> #[trigger] shifted[j] == tail[j] + 1);
        assert(forall|j: int| 0 <= j < rs.drop_first().len() ==> rs.drop_first()[j] == rs[j + 1]);
        if result_class(rs[0]) == want {
            let ix = seq![0] + shifted;
            assert(selected(rs, want) == seq![rs[0]->Some_0] + selected(rs.drop_first(), want));
            assert(ix[0] == 0);
            assert forall|j: int| 0 <= j < ix.len() implies result_class(rs[#[trigger] ix[j]])
                == want && selected(rs, want)[j] == rs[ix[j]]->Some_0 by {
                if j > 0 {
                    assert(ix[j] == tail[j - 1] + 1);
                    assert(selected(rs, want)[j] == selected(rs.drop_first(), want)[j - 1]);
                    assert(rs[ix[j]] == rs.drop_first()[tail[j - 1]]);
                }
            }
            ix
        } else {
            assert(selected(rs, want) == selected(rs.drop_first(), want));
            assert forall|j: int| 0 <= j < shifted.len() implies result_class(
                rs[#[trigger] shifted[j]],
            ) == want && selected(rs, want)[j] == rs[shifted[j]]->Some_0 by {
                assert(rs[shifted[j]] == rs.drop_first()[tail[j]]);
            }
            shifted
        }
    }
}

/// When some upstream result carries an address record, the candidate set is
/// exactly the address-bearing results, in upstream order, and the winner is
/// the earliest of them.
pub proof fn lemma_arbitration_prefers_addresses(rs: Seq<Option<Seq<u8>>>)
    requires
        exists|i: int|
            0 <= i < rs.len() && result_class(rs[i]) == ResponseClassification::WithAddress,
    ensures
        candidates(rs) == selected(rs, ResponseClassification::WithAddress),
        candidates(rs).len() > 0,
        forall|j: int| 0 <= j < candidates(rs).len() ==> spec_classify(candidates(rs)[j])
            == ResponseClassification::WithAddress,
        exists|i: int|
            0 <= i < rs.len() && result_class(rs[i]) == ResponseClassification::WithAddress
                && candidates(rs)[0] == rs[i]->Some_0 && (forall|j: int|
                0 <= j < i ==> result_class(rs[j]) != ResponseClassification::WithAddress),
{
    lemma_selected_first(rs, ResponseClassification::WithAddress);
    lemma_selected_classified(rs, ResponseClassification::WithAddress);
}

/// When no result carries an address record but some carries answers, the
/// candidate set is exactly the answer-bearing results, in upstream order,
/// and the winner is the earliest of them.
pub proof fn lemma_arbitration_fallback(rs: Seq<Option<Seq<u8>>>)
    requires
        forall|i: int|
            0 <= i < rs.len() ==> result_class(rs[i]) != ResponseClassification::WithAddress,
        exists|i: int|
            0 <= i < rs.len() && result_class(rs[i]) == ResponseClassification::WithoutAddress,
    ensures
        candidates(rs) == selected(rs, ResponseClassification::WithoutAddress),
        candidates(rs).len() > 0,
        forall|j: int| 0 <= j < candidates(rs).len() ==> spec_classify(candidates(rs)[j])
            == ResponseClassification::WithoutAddress,
        exists|i: int|
            0 <= i < rs.len() && result_class(rs[i]) == ResponseClassification::WithoutAddress
                && candidates(rs)[0] == rs[i]->Some_0 && (forall|j: int|
                0 <= j < i ==> result_class(rs[j]) != ResponseClassification::WithoutAddress),
{
    lemma_selected_empty_iff(rs, ResponseClassification::WithAddress);
    lemma_selected_first(rs, ResponseClassification::WithoutAddress);
    lemma_selected_classified(rs, ResponseClassification::WithoutAddress);
}

/// When every result is unusable there is no candidate: resolution fails.
pub proof fn lemma_all_unusable_no_candidates(rs: Seq<Option<Seq<u8>>>)
    requires
        forall|i: int| 0 <= i < rs.len() ==> result_class(rs[i]) == ResponseClassification::Unusable,
    ensures
        candidates(rs).len() == 0,
{
    lemma_selected_empty_iff(rs, ResponseClassification::WithAddress);
    lemma_selected_empty_iff(rs, ResponseClassification::WithoutAddress);
}

/// No candidate is unusable, so every candidate holds at least a header.
pub proof fn lemma_candidates_classified(rs: Seq<Option<Seq<u8>>>)
    ensures
        forall|j: int| 0 <= j < candidates(rs).len() ==> spec_classify(candidates(rs)[j])
            != ResponseClassification::Unusable,
        forall|j: int| 0 <= j < candidates(rs).len() ==> candidates(rs)[j].len() >= HEADER_LEN,
{
    lemma_selected_classified(rs, ResponseClassification::WithAddress);
    lemma_selected_classified(rs, ResponseClassification::WithoutAddress);
    assert forall|j: int| 0 <= j < candidates(rs).len() implies candidates(rs)[j].len()
        >= HEADER_LEN by {
        lemma_classified_has_header(candidates(rs)[j]);
    }
}

/// Two replies served from one cached entry are byte-identical apart from
/// the transaction id field, and each carries its own requester's id.
pub proof fn lemma_cached_replies_agree(b: Seq<u8>, id1: u16, id2: u16)
    requires
        b.len() >= 2,
    ensures
        spec_id(with_id(b, id1)) == id1,
        spec_id(with_id(b, id2)) == id2,
        with_id(b, id1).len() == with_id(b, id2).len(),
        forall|i: int| 2 <= i < b.len() ==> with_id(b, id1)[i] == with_id(b, id2)[i],
{
    lemma_with_id(b, id1);
    lemma_with_id(b, id2);
}

/// Collects the responses of one classification, in upstream order.
fn collect(results: &Vec<Option<Vec<u8>>>, want: ResponseClassification) -> (r: Vec<Vec<u8>>)
    requires
        want != ResponseClassification::Unusable,
    ensures
        r.deep_view() == selected(results.deep_view(), want),
{
    let ghost rv = results.deep_view();
    let n = results.len();
    let mut out: Vec<Vec<u8>> = Vec::new();
    let mut i: usize = 0;
    proof {
        assert(rv.skip(0) =~= rv);
        assert(out.deep_view() =~= Seq::<Seq<u8>>::empty());
        assert(Seq::<Seq<u8>>::empty() + selected(rv, want) =~= selected(rv, want));
    }
    while i < n
        invariant
            0 <= i <= n == results@.len(),
            want != ResponseClassification::Unusable,
            rv == results.deep_view(),
            out.deep_view() + selected(rv.skip(i as int), want) == selected(rv, want),
        decreases n - i,
    {
        let ghost out0 = out.deep_view();
        let ghost j: int = i as int;
        let item = &results[i];
        match item {
            Option::Some(b) => {
                let c = classify_response(b);
                proof {
                    assert(rv[j] == Some(b.deep_view()));
                    assert(b.deep_view() =~= b@);
                    assert(result_class(rv[j]) == c);
                    assert(rv.skip(j).len() > 0);
                    assert(rv.skip(j)[0] == rv[j]);
                    assert(rv.skip(j).drop_first() =~= rv.skip(j + 1));
                }
                if c == want {
                    out.push(copy_bytes(b));
                    proof {
                        assert(out.deep_view() =~= out0.push(b@));
                        assert(selected(rv.skip(j), want) == seq![b@] + selected(
                            rv.skip(j + 1),
                            want,
                        ));
                        assert(out.deep_view() + selected(rv.skip(j + 1), want) =~= out0
                            + selected(rv.skip(j), want));
                    }
                } else {
                    proof {
                        assert(selected(rv.skip(j), want) == selected(rv.skip(j + 1), want));
                    }
                }
            },
            Option::None => {
                proof {
                    assert(rv[j] is None);
                    assert(result_class(rv[j]) != want);
                    assert(rv.skip(j).len() > 0);
                    assert(rv.skip(j)[0] == rv[j]);
                    assert(rv.skip(j).drop_first() =~= rv.skip(j + 1));
                    assert(selected(rv.skip(j), want) == selected(rv.skip(j + 1), want));
                }
            },
        }
        i = i + 1;
    }
    proof {
        assert(rv.skip(n as int) =~= Seq::<Option<Seq<u8>>>::empty());
        assert(out.deep_view() + selected(rv.skip(n as int), want) =~= out.deep_view());
    }
    out
}

/// What the server decides for one inbound datagram.
pub enum CycleDecision {
    /// The datagram is malformed: drop it, send nothing.
    Discard,
    /// A live cached answer exists: send these bytes back.
    Reply(Vec<u8>),
    /// No live cached answer: fan the query out, then finish the cycle with
    /// the collected results, the key and the requester's transaction id.
    Resolve(QueryKey, u16),
}

/// The decision core of the datagram server. It owns the response cache and
/// the arbitration policy; sockets and clocks stay with the caller, which
/// feeds in datagrams, upstream results, and the current time.
pub struct DnsServer {
    /// The TTL-bounded cache of winning answers.
    pub cache: ResponseCache,
    /// How many upstream resolvers are configured; fixed for the lifetime of
    /// the server, and the length of each result vector handed in.
    pub n_upstreams: usize,
}

impl DnsServer {
    /// Well-formed: the cache is, and every cached answer is a whole message
    /// stored under the neutral transaction id zero — the cache never holds
    /// an id belonging to a client.
    pub open spec fn wf(self) -> bool {
        &&& self.cache.wf()
        &&& forall|k: (Seq<u8>, u16, u16)| #[trigger] self.cache.model().contains_key(k)
            ==> self.cache.model()[k].0.len() >= HEADER_LEN && spec_id(self.cache.model()[k].0)
            == 0
    }

    /// A server with an empty cache, the given time-to-live, and a fixed
    /// number of upstreams.
    pub fn new(ttl: u64, n_upstreams: usize) -> (s: DnsServer)
        ensures
            s.wf(),
            s.cache.ttl() == ttl,
            s.n_upstreams == n_upstreams,
            s.cache.model() == Map::<(Seq<u8>, u16, u16), (Seq<u8>, u64)>::empty(),
    {
        DnsServer { cache: ResponseCache::new(ttl), n_upstreams }
    }

    /// Arbitrates among the upstream results, one slot per configured
    /// upstream in configuration order: the candidates are the address-
    /// bearing responses, or failing that the answer-bearing ones.
    pub fn parse_dns_responses(&self, results: Vec<Option<Vec<u8>>>) -> (r: Vec<Vec<u8>>)
        ensures
            r.deep_view() == candidates(results.deep_view()),
    {
        let with_addr = collect(&results, ResponseClassification::WithAddress);
        if with_addr.len() > 0 {
            with_addr
        } else {
            collect(&results, ResponseClassification::WithoutAddress)
        }
    }

    /// Starts one cycle for an inbound datagram at time `now`. A datagram
    /// without a parseable question is discarded; a key with a live cached
    /// answer is answered at once, under the requester's transaction id; any
    /// other key is handed back for upstream resolution, evicting an expired
    /// entry on the way.
    pub fn begin_cycle(&mut self, datagram: &Vec<u8>, now: u64) -> (dec: CycleDecision)
        requires
            old(self).wf(),
        ensures
            final(self).wf(),
            final(self).n_upstreams == old(self).n_upstreams,
            final(self).cache.ttl() == old(self).cache.ttl(),
            spec_query_key(datagram@) is None ==> dec is Discard && final(self).cache.model()
                == old(self).cache.model(),
            spec_query_key(datagram@) is Some ==> ({
                let k = spec_query_key(datagram@)->Some_0;
                &&& (old(self).cache.served(k, now) is Some ==> {
                    &&& dec is Reply
                    &&& dec->Reply_0@ == with_id(
                        old(self).cache.served(k, now)->Some_0,
                        spec_id(datagram@),
                    )
                    &&& spec_id(dec->Reply_0@) == spec_id(datagram@)
                    &&& final(self).cache.model() == old(self).cache.model()
                })
                &&& (old(self).cache.served(k, now) is None ==> {
                    &&& dec is Resolve
                    &&& dec->Resolve_0@ == k
                    &&& dec->Resolve_1 == spec_id(datagram@)
                    &&& final(self).cache.model() == (if old(self).cache.model().contains_key(k)
                        && !fresh_at(old(self).cache.model()[k].1, now, old(self).cache.ttl()) {
                        old(self).cache.model().remove(k)
                    } else {
                        old(self).cache.model()
                    })
                })
            }),
    {
        match extract_query_key(datagram) {
            Option::None => CycleDecision::Discard,
            Option::Some(key) => {
                // The key only parses out of a whole header, so the id is
                // right there in the first two bytes.
                let id = u16_from(datagram[0], datagram[1]);
                match self.cache.get(&key, now) {
                    Option::Some(mut b) => {
                        proof {
                            assert(old(self).cache.model().contains_key(key@));
                            lemma_with_id(b@, id);
                        }
                        rewrite_id(&mut b, id);
                        CycleDecision::Reply(b)
                    },
                    Option::None => CycleDecision::Resolve(key, id),
                }
            },
        }
    }

    /// Finishes a cycle that went upstream: arbitrates among the results,
    /// records the winner in the cache under the neutral id zero, and
    /// returns the reply bytes under the requester's id — or nothing, when
    /// no upstream was usable, in which case the cache is untouched.
    pub fn finish_resolve(
        &mut self,
        key: QueryKey,
        client_id: u16,
        results: Vec<Option<Vec<u8>>>,
        now: u64,
    ) -> (r: Option<Vec<u8>>)
        requires
            old(self).wf(),
        ensures
            final(self).wf(),
            final(self).n_upstreams == old(self).n_upstreams,
            final(self).cache.ttl() == old(self).cache.ttl(),
            ({
                let cands = candidates(results.deep_view());
                match r {
                    Option::None => cands.len() == 0 && final(self).cache.model() == old(
                        self,
                    ).cache.model(),
                    Option::Some(b) => {
                        &&& cands.len() > 0
                        &&& b@ == with_id(cands[0], client_id)
                        &&& spec_id(b@) == client_id
                        &&& final(self).cache.model() == old(self).cache.model().insert(
                            key@,
                            (with_id(cands[0], 0), now),
                        )
                    },
                }
            }),
    {
        let ghost rv = results.deep_view();
        let cands = self.parse_dns_responses(results);
        if cands.len() == 0 {
            None
        } else {
            proof {
                lemma_candidates_classified(rv);
                assert(cands.deep_view()[0] == candidates(rv)[0]);
                assert(cands@[0].deep_view() =~= cands@[0]@);
            }
            let winner = copy_bytes(&cands[0]);
            let ghost w = candidates(rv)[0];
            proof {
                assert(winner@ == w);
                lemma_with_id(w, 0);
                lemma_with_id(w, client_id);
            }
            let mut stored = copy_bytes(&winner);
            rewrite_id(&mut stored, 0);
            self.cache.insert(key, stored, now);
            let mut reply = winner;
            rewrite_id(&mut reply, client_id);
            Some(reply)
        }
    }
}

} // verus!
