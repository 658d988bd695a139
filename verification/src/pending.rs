//! Requests that wait for a backend's answer, and the ids that they travel under.

use crate::jsonrpc::{JsonRpcError, JsonRpcId, JsonRpcResponse};
use crate::text::{decimal_reads_back, parse_u64, parsed_u64, u64_to_text};
use std::collections::HashMap;
use vstd::prelude::*;

verus! {

broadcast use vstd::std_specs::hash::group_hash_axioms;

/// The source of proxy ids, under which requests travel to a backend.
pub struct ProxyIdCounter {
    next: u64,
}

impl ProxyIdCounter {
    /// The id that comes next.
    pub closed spec fn upcoming(&self) -> u64 {
        self.next
    }

    /// A counter that starts at 1.
    pub fn new() -> (res: ProxyIdCounter)
        ensures
            res.upcoming() == 1,
    {
        ProxyIdCounter { next: 1 }
    }
}

/// The id behind `id`; behind the last one the count starts over at 0.
pub open spec fn id_after(id: u64) -> u64 {
    if id == u64::MAX {
        0
    } else {
        (id + 1) as u64
    }
}

/// Hands out the next proxy id.
pub fn next_proxy_id(counter: &mut ProxyIdCounter) -> (res: u64)
    ensures
        res == old(counter).upcoming(),
        final(counter).upcoming() == id_after(res),
{
    let id: u64 = counter.next;
    counter.next = id.wrapping_add(1);
    id
}

/// The id that is handed out `n` calls behind `id`.
pub open spec fn id_later(id: u64, n: nat) -> u64
    decreases n,
{
    if n == 0 {
        id
    } else {
        id_after(id_later(id, (n - 1) as nat))
    }
}

proof fn lemma_id_later(id: u64, n: nat)
    requires
        n <= u64::MAX,
    ensures
        id_later(id, n) == (if id + n <= u64::MAX {
            id + n
        } else {
            id + n - u64::MAX - 1
        }),
    decreases n,
{
    if n > 0 {
        lemma_id_later(id, (n - 1) as nat);
    }
}

/// Ids grow from call to call, as long as the count has not started over.
pub proof fn proxy_ids_increase(id: u64, m: nat, n: nat)
    requires
        m < n,
        id + n <= u64::MAX,
    ensures
        id_later(id, m) < id_later(id, n),
{
    lemma_id_later(id, m);
    lemma_id_later(id, n);
}

/// No id is handed out twice within as many calls as there are ids.
pub proof fn proxy_ids_are_distinct(id: u64, m: nat, n: nat)
    requires
        m < n <= u64::MAX,
    ensures
        id_later(id, m) != id_later(id, n),
{
    lemma_id_later(id, m);
    lemma_id_later(id, n);
}

/// The number that stands for the proxy id on the wire, which knows signed numbers only: it has
/// the same 64 bits.
pub open spec fn wire_number(proxy_id: u64) -> i64 {
    if proxy_id <= i64::MAX {
        proxy_id as i64
    } else {
        (proxy_id - 0x1_0000_0000_0000_0000) as i64
    }
}

/// The number that stands for the proxy id on the wire.
pub fn to_wire(proxy_id: u64) -> (res: i64)
    ensures
        res == wire_number(proxy_id),
{
    let res = proxy_id as i64;
    assert(proxy_id <= 0x7fff_ffff_ffff_ffff ==> proxy_id as i64 == proxy_id) by (bit_vector);
    assert(proxy_id > 0x7fff_ffff_ffff_ffff ==> proxy_id as i64 == proxy_id
        - 0x1_0000_0000_0000_0000) by (bit_vector);
    res
}

/// The proxy id that an answer is for. An id that is text counts by the number it holds; text
/// without one stands for 0.
pub open spec fn answered_id(id: JsonRpcId) -> u64 {
    match id {
        JsonRpcId::Number(n) => if n >= 0 {
            n as u64
        } else {
            (n + 0x1_0000_0000_0000_0000) as u64
        },
        JsonRpcId::String(s) => match parsed_u64(s@) {
            Some(n) => n,
            None => 0,
        },
    }
}

/// The proxy id that an answer is for.
pub fn proxy_id_of(id: &JsonRpcId) -> (res: u64)
    ensures
        res == answered_id(*id),
{
    match id {
        JsonRpcId::Number(n) => {
            let n: i64 = *n;
            let res = n as u64;
            assert(n >= 0 ==> n as u64 == n) by (bit_vector);
            assert(n < 0 ==> n as u64 == n + 0x1_0000_0000_0000_0000) by (bit_vector);
            res
        },
        JsonRpcId::String(s) => match parse_u64(s.as_str()) {
            Some(n) => n,
            None => 0,
        },
    }
}

/// An answer that repeats the id it was sent, as a number, is for the request of that id.
pub proof fn wire_number_reads_back(proxy_id: u64)
    ensures
        answered_id(JsonRpcId::Number(wire_number(proxy_id))) == proxy_id,
{
}

/// An answer that repeats the id it was sent, in decimal text, is for the request of that id.
pub proof fn wire_text_reads_back(proxy_id: u64, text: String)
    requires
        text@ == crate::text::decimal(proxy_id as nat),
    ensures
        answered_id(JsonRpcId::String(text)) == proxy_id,
{
    crate::text::decimal_reads_back(proxy_id);
}

/// A request that waits: the id its client knows it by, and where the answer goes.
pub struct PendingRequest<T> {
    pub client_id: Option<JsonRpcId>,
    pub reply: T,
}

/// What becomes of an answer.
pub enum Delivery<T, P> {
    /// It goes to the client that waits for it, under the client's own id.
    To(T, JsonRpcResponse<P>),
    /// It has no id, so it is for nobody.
    WithoutId,
    /// Nobody waits for it.
    Unknown(u64),
}

/// The waiting requests of one backend, by proxy id.
pub struct PendingTable<T> {
    waiting: HashMap<u64, PendingRequest<T>>,
}

/// `result` and `after` are what delivering `response` among the requests `before` gives: the
/// request that it is for waits no longer, and the answer carries the id that the client knows.
pub open spec fn delivered<T, P>(
    before: Map<u64, PendingRequest<T>>,
    response: JsonRpcResponse<P>,
    result: Delivery<T, P>,
    after: Map<u64, PendingRequest<T>>,
) -> bool {
    match response.id {
        None => result is WithoutId && after == before,
        Some(id) => {
            let proxy_id = answered_id(id);
            if before.contains_key(proxy_id) {
                &&& result == Delivery::To(
                    before[proxy_id].reply,
                    JsonRpcResponse { id: before[proxy_id].client_id, ..response },
                )
                &&& after == before.remove(proxy_id)
            } else {
                &&& result == Delivery::<T, P>::Unknown(proxy_id)
                &&& after == before
            }
        },
    }
}

/// The error code of a request whose backend is gone.
pub const BACKEND_GONE: i64 = -32001;

/// Whether `response` tells the client `id` that its backend is gone.
pub open spec fn is_gone_answer<P>(response: JsonRpcResponse<P>, id: Option<JsonRpcId>) -> bool {
    &&& response.jsonrpc@ == "2.0"@
    &&& response.id == id
    &&& response.result is None
    &&& response.error matches Some(error) && error.code == BACKEND_GONE && error.message@
        == "Backend process terminated unexpectedly"@ && error.data is None
}

/// `sent` answers every request of `waiting`, each once, with the news that its backend is gone;
/// `ids` is the order in which they are answered.
pub open spec fn all_failed<T, P>(
    waiting: Map<u64, PendingRequest<T>>,
    ids: Seq<u64>,
    sent: Seq<(T, JsonRpcResponse<P>)>,
) -> bool {
    &&& ids.no_duplicates()
    &&& ids.to_set() == waiting.dom()
    &&& sent.len() == ids.len()
    &&& forall|i: int|
        0 <= i < ids.len() ==> (#[trigger] sent[i]).0 == waiting[ids[i]].reply && is_gone_answer(
            sent[i].1,
            waiting[ids[i]].client_id,
        )
}

/// `sent` answers every request of `waiting`, each once, with the news that its backend is gone.
pub open spec fn everyone_told<T, P>(
    waiting: Map<u64, PendingRequest<T>>,
    sent: Seq<(T, JsonRpcResponse<P>)>,
) -> bool {
    exists|ids: Seq<u64>| #[trigger] all_failed(waiting, ids, sent)
}

impl<T> View for PendingTable<T> {
    type V = Map<u64, PendingRequest<T>>;

    closed spec fn view(&self) -> Map<u64, PendingRequest<T>> {
        self.waiting@
    }
}

impl<T> PendingTable<T> {
    /// Nothing waits.
    pub fn new() -> (res: PendingTable<T>)
        ensures
            res@ == Map::<u64, PendingRequest<T>>::empty(),
    {
        PendingTable { waiting: HashMap::new() }
    }

    /// Whether nothing waits.
    pub fn is_empty(&self) -> (res: bool)
        ensures
            res == (self@ == Map::<u64, PendingRequest<T>>::empty()),
    {
        let res = self.waiting.len() == 0;
        proof {
            if res {
                assert(self@.dom() =~= Set::empty());
                assert(self@ =~= Map::empty());
            }
        }
        res
    }

    /// How many requests wait.
    pub fn len(&self) -> (res: usize)
        ensures
            res == self@.len(),
    {
        self.waiting.len()
    }

    /// The ids of all waiting requests.
    fn ids(&self) -> (res: Vec<u64>)
        ensures
            res@.no_duplicates(),
            res@.to_set() == self@.dom(),
    {
        let mut ids: Vec<u64> = Vec::new();
        for id in iter: self.waiting.keys()
            invariant
                iter.seq().unref().to_set() == self@.dom(),
                iter.seq().no_duplicates(),
                ids@ == iter.seq().unref().take(iter.index()),
                iter.index() == iter.seq().len() ==> ids@ == iter.seq().unref(),
        {
            ids.push(*id);
        }
        ids
    }

    /// Lets a request wait under `proxy_id`.
    pub fn insert(&mut self, proxy_id: u64, request: PendingRequest<T>)
        ensures
            final(self)@ == old(self)@.insert(proxy_id, request),
    {
        self.waiting.insert(proxy_id, request);
    }

    /// Lets the request of `proxy_id` wait no longer.
    pub fn remove(&mut self, proxy_id: u64) -> (res: Option<PendingRequest<T>>)
        ensures
            final(self)@ == old(self)@.remove(proxy_id),
            match res {
                Some(request) => old(self)@.contains_key(proxy_id) && request
                    == old(self)@[proxy_id],
                None => !old(self)@.contains_key(proxy_id),
            },
    {
        self.waiting.remove(&proxy_id)
    }

    /// Finds whom `response` is for. The request waits no longer, and the answer gets the id
    /// that the client knows.
    pub fn deliver<P>(&mut self, response: JsonRpcResponse<P>) -> (res: Delivery<T, P>)
        ensures
            delivered(old(self)@, response, res, final(self)@),
    {
        let proxy_id: u64 = match &response.id {
            Some(id) => proxy_id_of(id),
            None => {
                return Delivery::WithoutId;
            },
        };
        match self.remove(proxy_id) {
            Some(request) => {
                let mut answer = response;
                answer.id = request.client_id;
                Delivery::To(request.reply, answer)
            },
            None => {
                assert(old(self)@.remove(proxy_id) =~= old(self)@);
                Delivery::Unknown(proxy_id)
            },
        }
    }

    /// Lets nothing wait any longer: every request gets the answer that its backend is gone.
    #[verifier::spinoff_prover]
    pub fn fail_all<P>(&mut self) -> (res: Vec<(T, JsonRpcResponse<P>)>)
        ensures
            final(self)@ == Map::<u64, PendingRequest<T>>::empty(),
            everyone_told(old(self)@, res@),
    {
        let ghost before = self@;
        let ids = self.ids();
        let mut sent: Vec<(T, JsonRpcResponse<P>)> = Vec::new();
        let mut i: usize = 0;
        proof {
            assert(ids@.skip(0) =~= ids@);
            assert forall|id: u64| #[trigger] self@.contains_key(id) <==> ids@.contains(id) by {
                assert(ids@.to_set().contains(id) <==> ids@.contains(id));
            }
        }
        while i < ids.len()
            invariant
                i <= ids.len(),
                ids@.no_duplicates(),
                ids@.to_set() == before.dom(),
                sent@.len() == i,
                forall|k: int|
                    0 <= k < i ==> (#[trigger] sent@[k]).0 == before[ids@[k]].reply
                        && is_gone_answer(sent@[k].1, before[ids@[k]].client_id),
                forall|id: u64| #[trigger]
                    self@.contains_key(id) <==> ids@.skip(i as int).contains(id),
                forall|id: u64| #[trigger] self@.contains_key(id) ==> self@[id] == before[id],
            decreases ids.len() - i,
        {
            let id: u64 = ids[i];
            let ghost rest = ids@.skip(i as int);
            let ghost left = ids@.skip(i + 1);
            let ghost earlier = self@;
            proof {
                assert(rest[0] == id);
                assert(rest.contains(id));
                assert(self@.contains_key(id));
            }
            if let Some(request) = self.remove(id) {
                let error = JsonRpcError::new(
                    BACKEND_GONE,
                    "Backend process terminated unexpectedly",
                );
                sent.push((request.reply, JsonRpcResponse::error(request.client_id, error)));
            }
            proof {
                assert forall|other: u64| #[trigger] self@.contains_key(other) <==> left.contains(
                    other,
                ) by {
                    if left.contains(other) {
                        let k = choose|k: int| 0 <= k < left.len() && left[k] == other;
                        assert(rest[k + 1] == other);
                        assert(rest.contains(other));
                        assert(ids@[i + 1 + k] == other);
                        assert(earlier.contains_key(other));
                    }
                    if self@.contains_key(other) {
                        assert(earlier.contains_key(other));
                        let k = choose|k: int| 0 <= k < rest.len() && rest[k] == other;
                        assert(left[k - 1] == other);
                    }
                }
            }
            i = i + 1;
        }
        proof {
            assert(self@ =~= Map::empty());
            assert(all_failed(before, ids@, sent@));
        }
        sent
    }
}

/// A new id is never that of a waiting request, as long as fewer ids were handed out than there
/// are: `drawn` ids were, from `first` on, and every waiting request has one of them.
pub proof fn new_id_is_free<T>(waiting: Map<u64, PendingRequest<T>>, first: u64, drawn: nat)
    requires
        drawn <= u64::MAX,
        forall|id: u64| #[trigger]
            waiting.contains_key(id) ==> exists|k: nat|
                k < drawn && #[trigger] id_later(first, k) == id,
    ensures
        !waiting.contains_key(id_later(first, drawn)),
{
    let id = id_later(first, drawn);
    if waiting.contains_key(id) {
        let k = choose|k: nat| k < drawn && #[trigger] id_later(first, k) == id;
        proxy_ids_are_distinct(first, k, drawn);
    }
}

/// The answer to a request reaches its client under the client's own id, and leaves the other
/// requests as they were.
pub proof fn answer_reaches_its_client<T, P>(
    before: Map<u64, PendingRequest<T>>,
    proxy_id: u64,
    request: PendingRequest<T>,
    response: JsonRpcResponse<P>,
    result: Delivery<T, P>,
    after: Map<u64, PendingRequest<T>>,
)
    requires
        !before.contains_key(proxy_id),
        response.id == Some(JsonRpcId::Number(wire_number(proxy_id))),
        delivered(before.insert(proxy_id, request), response, result, after),
    ensures
        result == Delivery::To(
            request.reply,
            JsonRpcResponse { id: request.client_id, ..response },
        ),
        after == before,
{
    wire_number_reads_back(proxy_id);
    assert(before.insert(proxy_id, request).remove(proxy_id) =~= before);
}

/// A second answer under the same id reaches nobody.
pub proof fn second_answer_reaches_nobody<T, P>(
    before: Map<u64, PendingRequest<T>>,
    first: JsonRpcResponse<P>,
    first_result: Delivery<T, P>,
    between: Map<u64, PendingRequest<T>>,
    second: JsonRpcResponse<P>,
    second_result: Delivery<T, P>,
    after: Map<u64, PendingRequest<T>>,
)
    requires
        first.id is Some,
        second.id is Some,
        answered_id(first.id.unwrap()) == answered_id(second.id.unwrap()),
        delivered(before, first, first_result, between),
        delivered(between, second, second_result, after),
    ensures
        second_result is Unknown,
        after == between,
{
}

/// Where a backend is gone, each of its requests is answered, and nothing else is: there are as
/// many answers as requests, and every request has its own.
pub proof fn failing_answers_everyone<T, P>(
    waiting: Map<u64, PendingRequest<T>>,
    sent: Seq<(T, JsonRpcResponse<P>)>,
    id: u64,
)
    requires
        everyone_told(waiting, sent),
        waiting.contains_key(id),
    ensures
        sent.len() == waiting.len(),
        exists|i: int|
            0 <= i < sent.len() && (#[trigger] sent[i]).0 == waiting[id].reply && is_gone_answer(
                sent[i].1,
                waiting[id].client_id,
            ),
{
    let ids = choose|ids: Seq<u64>| #[trigger] all_failed(waiting, ids, sent);
    ids.unique_seq_to_set();
    assert(ids.to_set().contains(id));
    let i = choose|i: int| 0 <= i < ids.len() && ids[i] == id;
    assert(sent[i].0 == waiting[id].reply);
}

/// The ids that a counter hands out differ from call to call, as long as fewer are drawn than there
/// are; they start at 1 and grow by one.
pub proof fn counter_hands_out_new_ids(
    fresh: ProxyIdCounter,
    first: &mut ProxyIdCounter,
    id: u64,
    second: &mut ProxyIdCounter,
    next: u64,
)
    requires
        call_ensures(ProxyIdCounter::new, (), fresh),
        call_ensures(next_proxy_id, (first,), id),
        old(second).upcoming() == final(first).upcoming(),
        call_ensures(next_proxy_id, (second,), next),
    ensures
        next != id,
        id < u64::MAX ==> next == id + 1,
        old(first).upcoming() == fresh.upcoming() ==> id == 1,
{
}

/// The number on the wire determines the id: the id comes back from it, as a number or in decimal
/// text.
pub proof fn id_comes_back_from_the_wire(
    proxy_id: u64,
    wire: i64,
    read: u64,
    written: String,
    read_text: u64,
)
    requires
        call_ensures(to_wire, (proxy_id,), wire),
        call_ensures(proxy_id_of, (&JsonRpcId::Number(wire),), read),
        call_ensures(u64_to_text, (proxy_id,), written),
        call_ensures(proxy_id_of, (&JsonRpcId::String(written),), read_text),
    ensures
        read == proxy_id,
        read_text == proxy_id,
        proxy_id <= i64::MAX ==> wire == proxy_id,
{
    decimal_reads_back(proxy_id);
}

/// An id that is text counts by the number that it writes, and as 0 where it writes none.
pub proof fn text_counts_by_its_number(
    id: String,
    text: &str,
    number: Option<u64>,
    read: u64,
)
    requires
        id@ == text@,
        call_ensures(parse_u64, (text,), number),
        call_ensures(proxy_id_of, (&JsonRpcId::String(id),), read),
    ensures
        number matches Some(n) ==> read == n,
        number is None ==> read == 0,
{
}

/// An answer goes to the request that waits under its id, and that request alone waits no longer.
/// It keeps all that it carries but the id, which becomes the client's.
pub proof fn delivery_reaches_the_request<T, P>(
    table: &mut PendingTable<T>,
    response: JsonRpcResponse<P>,
    delivery: Delivery<T, P>,
    other: u64,
)
    requires
        call_ensures(PendingTable::<T>::deliver::<P>, (table, response), delivery),
    ensures
        match response.id {
            None => delivery is WithoutId && final(table)@ == old(table)@,
            Some(id) => {
                let proxy_id = answered_id(id);
                &&& old(table)@.contains_key(proxy_id) ==> {
                    &&& delivery matches Delivery::To(reply, answer) && reply
                        == old(table)@[proxy_id].reply && answer.id
                        == old(table)@[proxy_id].client_id && answer.result == response.result
                        && answer.error == response.error && answer.jsonrpc == response.jsonrpc
                    &&& !final(table)@.contains_key(proxy_id)
                }
                &&& !old(table)@.contains_key(proxy_id) ==> delivery is Unknown
                &&& other != proxy_id ==> {
                    &&& final(table)@.contains_key(other) == old(table)@.contains_key(other)
                    &&& final(table)@.contains_key(other) ==> final(table)@[other]
                        == old(table)@[other]
                }
            },
        },
{
}

/// A request waits from when it is put into the table until it is taken out, and taking it out
/// gives it back; the table tells how many wait.
pub proof fn table_keeps_requests<T>(
    table: &mut PendingTable<T>,
    proxy_id: u64,
    request: PendingRequest<T>,
    later: &mut PendingTable<T>,
    taken: Option<PendingRequest<T>>,
    empty: PendingTable<T>,
    nothing_waits: bool,
)
    requires
        call_ensures(PendingTable::<T>::insert, (table, proxy_id, request), ()),
        *old(later) == *final(table),
        call_ensures(PendingTable::<T>::remove, (later, proxy_id), taken),
        call_ensures(PendingTable::<T>::new, (), empty),
        call_ensures(PendingTable::<T>::is_empty, (&*old(later),), nothing_waits),
    ensures
        taken == Some(request),
        !nothing_waits,
        !old(table)@.contains_key(proxy_id) ==> final(later)@ == old(table)@,
        forall|id: u64| !#[trigger] empty@.contains_key(id),
{
    assert(old(later)@.contains_key(proxy_id));
    if !old(table)@.contains_key(proxy_id) {
        assert(final(later)@ =~= old(table)@);
    }
}

} // verus!
