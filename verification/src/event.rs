use vstd::prelude::*;

verus! {

/// One event observed by a queue's single consumer. Many connection handlers
/// produce events concurrently; the bridge serializes them into one ordered
/// stream. `H` is the send-handle type of the transport; the model and the
/// drain logic never look inside a handle.
pub enum Event<H> {
    /// A new connection was accepted: its identity and its send handle.
    Conn { id: u64, handle: H },
    /// A frame arrived on the identified connection.
    Data { id: u64, bytes: Vec<u8> },
}

/// The connection identity an event is tagged with.
pub open spec fn event_id<H>(ev: Event<H>) -> u64 {
    match ev {
        Event::Conn { id, .. } => id,
        Event::Data { id, .. } => id,
    }
}

/// Every event of the stream is a `Conn` event.
pub open spec fn all_conn<H>(evs: Seq<Event<H>>) -> bool {
    forall|j: int| 0 <= j < evs.len() ==> evs[j] is Conn
}

/// The registry contents after the consumer absorbs a stream of events:
/// each `Conn` event inserts its handle under its identity, `Data` events
/// leave the registry unchanged.
pub open spec fn absorb<H>(m: Map<u64, H>, evs: Seq<Event<H>>) -> Map<u64, H>
    decreases evs.len(),
{
    if evs.len() == 0 {
        m
    } else {
        let rest = absorb(m, evs.drop_last());
        match evs.last() {
            Event::Conn { id, handle } => rest.insert(id, handle),
            Event::Data { .. } => rest,
        }
    }
}

/// A stream is well formed when data arrives only on connections whose
/// accept event came earlier: the transport registers a connection with the
/// bridge before any of that connection's frames.
pub open spec fn stream_well_formed<H>(evs: Seq<Event<H>>) -> bool {
    forall|i: int|
        0 <= i < evs.len() && evs[i] is Data ==> exists|j: int|
            0 <= j < i && evs[j] is Conn && event_id(evs[j]) == event_id(evs[i])
}

/// What a consumer that drains the whole stream delivers: the identity and
/// payload of every `Data` event, in stream order.
pub open spec fn pops_model<H>(evs: Seq<Event<H>>) -> Seq<(u64, Seq<u8>)>
    decreases evs.len(),
{
    if evs.len() == 0 {
        Seq::empty()
    } else {
        let rest = pops_model(evs.drop_last());
        match evs.last() {
            Event::Data { id, bytes } => rest.push((id, bytes@)),
            Event::Conn { .. } => rest,
        }
    }
}

/// The payloads of one connection's `Data` events, in stream order.
pub open spec fn conn_payloads<H>(evs: Seq<Event<H>>, c: u64) -> Seq<Seq<u8>>
    decreases evs.len(),
{
    if evs.len() == 0 {
        Seq::empty()
    } else {
        let rest = conn_payloads(evs.drop_last(), c);
        match evs.last() {
            Event::Data { id, bytes } => if id == c {
                rest.push(bytes@)
            } else {
                rest
            },
            Event::Conn { .. } => rest,
        }
    }
}

/// The payloads delivered for one connection, in delivery order.
pub open spec fn deliveries_for(pops: Seq<(u64, Seq<u8>)>, c: u64) -> Seq<Seq<u8>>
    decreases pops.len(),
{
    if pops.len() == 0 {
        Seq::empty()
    } else {
        let rest = deliveries_for(pops.drop_last(), c);
        if pops.last().0 == c {
            rest.push(pops.last().1)
        } else {
            rest
        }
    }
}

/// Law (per-connection FIFO): a consumer that drains the stream delivers one
/// connection's payloads in exactly that connection's send order. In
/// particular, two payloads pushed on the same connection are delivered in
/// the order they were pushed.
pub proof fn lemma_per_connection_fifo<H>(evs: Seq<Event<H>>, c: u64)
    ensures
        deliveries_for(pops_model(evs), c) == conn_payloads(evs, c),
    decreases evs.len(),
{
    if evs.len() == 0 {
    } else {
        lemma_per_connection_fifo(evs.drop_last(), c);
        match evs.last() {
            Event::Data { id, bytes } => {
                assert(pops_model(evs) == pops_model(evs.drop_last()).push((id, bytes@)));
                assert(pops_model(evs).drop_last() == pops_model(evs.drop_last()));
            },
            Event::Conn { .. } => {},
        }
    }
}

/// Every identity that some `Conn` event of the stream carries is registered
/// once the stream has been absorbed.
pub proof fn lemma_absorb_registers<H>(m: Map<u64, H>, evs: Seq<Event<H>>, j: int)
    requires
        0 <= j < evs.len(),
        evs[j] is Conn,
    ensures
        absorb(m, evs).contains_key(event_id(evs[j])),
    decreases evs.len(),
{
    if j == evs.len() - 1 {
        assert(evs.last() == evs[j]);
    } else {
        lemma_absorb_registers(m, evs.drop_last(), j);
        assert(evs.drop_last()[j] == evs[j]);
    }
}

/// A run of accept events delivers nothing.
pub proof fn lemma_all_conn_no_deliveries<H>(evs: Seq<Event<H>>)
    requires
        all_conn(evs),
    ensures
        pops_model(evs) == Seq::<(u64, Seq<u8>)>::empty(),
    decreases evs.len(),
{
    if evs.len() > 0 {
        assert(forall|j: int| 0 <= j < evs.len() - 1 ==> evs.drop_last()[j] == evs[j]);
        lemma_all_conn_no_deliveries(evs.drop_last());
    }
}

/// Law (registrations persist): absorbing events never removes a registry
/// entry, so an identity once registered stays registered; a dead peer is
/// never silently forgotten.
pub proof fn lemma_absorb_preserves_keys<H>(m: Map<u64, H>, evs: Seq<Event<H>>, id: u64)
    requires
        m.contains_key(id),
    ensures
        absorb(m, evs).contains_key(id),
    decreases evs.len(),
{
    if evs.len() > 0 {
        lemma_absorb_preserves_keys(m, evs.drop_last(), id);
    }
}

/// Law (registration before data): in a well-formed stream, by the time the
/// consumer reaches the first `Data` event, the identity that event is
/// tagged with is already present in the registry, whatever the registry
/// held before.
pub proof fn lemma_registration_before_data<H>(m: Map<u64, H>, evs: Seq<Event<H>>, i: int)
    requires
        stream_well_formed(evs),
        0 <= i < evs.len(),
        evs[i] is Data,
        forall|j: int| 0 <= j < i ==> evs[j] is Conn,
    ensures
        absorb(m, evs.take(i)).contains_key(event_id(evs[i])),
{
    let j = choose|j: int|
        0 <= j < i && evs[j] is Conn && event_id(evs[j]) == event_id(evs[i]);
    assert(evs.take(i)[j] == evs[j]);
    lemma_absorb_registers(m, evs.take(i), j);
}

} // verus!
