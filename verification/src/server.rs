use vstd::prelude::*;

use crate::codec::decode_u64;
use crate::codec::encode_u64;
use crate::codec::json_bytes_of;
use crate::codec::u64_of_json;
use crate::error::Error;
use crate::event::absorb;
use crate::event::all_conn;
use crate::event::event_id;
use crate::event::lemma_absorb_registers;
use crate::event::lemma_all_conn_no_deliveries;
use crate::event::pops_model;
use crate::event::stream_well_formed;
use crate::event::Event;
use crate::registry::Registry;
use crate::transport::recv_from;
use crate::transport::try_recv_from;
use crate::transport::ws_send;

verus! {

/// One blocking pop as the consumer performs it: a run of accept events was
/// absorbed into the registry, then the first data event was delivered.
pub open spec fn pop_run<H>(
    reg0: Map<u64, H>,
    reg1: Map<u64, H>,
    evs: Seq<Event<H>>,
    id: u64,
    bytes: Seq<u8>,
) -> bool {
    &&& evs.len() >= 1
    &&& all_conn(evs.drop_last())
    &&& (evs.last() matches Event::Data { id: did, bytes: db } && did == id && db@ == bytes)
    &&& reg1 == absorb(reg0, evs.drop_last())
}

/// The registry advanced by absorbing some run of accept events and nothing
/// was delivered.
pub open spec fn conn_run<H>(reg0: Map<u64, H>, reg1: Map<u64, H>) -> bool {
    exists|conns: Seq<Event<H>>| all_conn(conns) && reg1 == absorb(reg0, conns)
}

/// Some run of accept events was absorbed and then the frame `bytes`,
/// tagged with connection `id`, was delivered.
pub open spec fn popped_raw<H>(
    reg0: Map<u64, H>,
    reg1: Map<u64, H>,
    id: u64,
    bytes: Seq<u8>,
) -> bool {
    exists|evs: Seq<Event<H>>| pop_run(reg0, reg1, evs, id, bytes)
}

/// Some run of accept events was absorbed and then a frame tagged with
/// connection `id` was delivered and decoded to `v`.
pub open spec fn popped_value<H>(reg0: Map<u64, H>, reg1: Map<u64, H>, id: u64, v: u64) -> bool {
    exists|bytes: Seq<u8>| popped_raw(reg0, reg1, id, bytes) && u64_of_json(bytes) == Some(v)
}

/// Some run of accept events was absorbed and then a frame that does not
/// decode was delivered; its payload is lost to the caller.
pub open spec fn popped_undecodable<H>(reg0: Map<u64, H>, reg1: Map<u64, H>) -> bool {
    exists|id: u64, bytes: Seq<u8>|
        popped_raw(reg0, reg1, id, bytes) && u64_of_json(bytes) is None
}

/// Law (one delivery per pop): the run of events one pop consumes delivers
/// exactly its final data event. Together with the per-connection FIFO law
/// over the stream model, the consumer hands out data events one at a
/// time, in stream order, never skipping or reordering one.
pub proof fn lemma_pop_run_single_delivery<H>(
    reg0: Map<u64, H>,
    reg1: Map<u64, H>,
    evs: Seq<Event<H>>,
    id: u64,
    bytes: Seq<u8>,
)
    requires
        pop_run(reg0, reg1, evs, id, bytes),
    ensures
        pops_model(evs) == seq![(id, bytes)],
{
    lemma_all_conn_no_deliveries(evs.drop_last());
    assert(pops_model(evs) =~= seq![(id, bytes)]);
}

/// Law (a pop registers its sender): when the run of events one pop
/// consumes comes from a well-formed stream, the identity the delivered
/// data is tagged with is present in the registry by the time the pop
/// returns: a caller never receives data under an unregistered identity.
pub proof fn lemma_pop_registers_sender<H>(
    reg0: Map<u64, H>,
    reg1: Map<u64, H>,
    evs: Seq<Event<H>>,
    id: u64,
    bytes: Seq<u8>,
)
    requires
        pop_run(reg0, reg1, evs, id, bytes),
        stream_well_formed(evs),
    ensures
        reg1.contains_key(id),
{
    let last = evs.len() - 1;
    assert(evs[last] is Data && event_id(evs[last]) == id);
    let j = choose|j: int|
        0 <= j < last && evs[j] is Conn && event_id(evs[j]) == event_id(evs[last]);
    assert(evs.drop_last()[j] == evs[j]);
    lemma_absorb_registers(reg0, evs.drop_last(), j);
}

/// The consumer half of a server: the single reader of the bridge's event
/// stream together with the registry it maintains. Generic in the handle
/// type, which the drain logic never looks inside.
#[verifier::reject_recursive_types(H)]
pub struct ServerCore<H> {
    rx: std::sync::mpsc::Receiver<Event<H>>,
    reg: Registry<H>,
}

impl<H> ServerCore<H> {
    /// The addressing table: connection identity to send handle.
    pub closed spec fn registry(self) -> Map<u64, H> {
        self.reg@
    }

    pub closed spec fn wf(self) -> bool {
        self.reg.wf()
    }

    /// A consumer over a fresh event stream; nothing is registered yet.
    pub fn from_receiver(rx: std::sync::mpsc::Receiver<Event<H>>) -> (r: Self)
        ensures
            r.wf(),
            r.registry() == Map::<u64, H>::empty(),
    {
        ServerCore { rx, reg: Registry::new() }
    }

    /// The handle registered under `id`, if any.
    pub fn get(&self, id: u64) -> (r: Option<&H>)
        requires
            self.wf(),
        ensures
            match r {
                Some(h) => self.registry().contains_key(id) && self.registry()[id] == *h,
                None => !self.registry().contains_key(id),
            },
    {
        self.reg.get(id)
    }

    /// Every registered identity, each exactly once.
    pub fn ids(&self) -> (r: Vec<u64>)
        requires
            self.wf(),
        ensures
            r@.no_duplicates(),
            forall|j: int| 0 <= j < r@.len() ==> self.registry().contains_key(#[trigger] r@[j]),
            forall|id: u64| self.registry().contains_key(id) ==> r@.contains(id),
    {
        self.reg.ids()
    }

    /// Block until a data event is available and deliver it, absorbing every
    /// accept event met on the way, so that a connection is registered before
    /// any of its data is handed out. A closed stream is the terminal
    /// `Disconnected`; `Io` arises only at the drain limit.
    pub fn pop_raw(&mut self) -> (r: Result<(u64, Vec<u8>), Error>)
        requires
            old(self).wf(),
        ensures
            final(self).wf(),
            forall|id: u64| old(self).registry().contains_key(id)
                ==> final(self).registry().contains_key(id),
            match r {
                Ok(d) => popped_raw(old(self).registry(), final(self).registry(), d.0, d.1@),
                Err(e) => (e is Disconnected || e is Io) && conn_run(
                    old(self).registry(),
                    final(self).registry(),
                ),
            },
    {
        let ghost reg0 = self.reg@;
        let ghost mut conns: Seq<Event<H>> = Seq::empty();
        // Each round consumes one event; the fuel is large enough that the
        // cap is out of reach for any real stream of accept events.
        let mut fuel: u64 = u64::MAX;
        while fuel > 0
            invariant
                self.reg.wf(),
                all_conn(conns),
                self.reg@ == absorb(reg0, conns),
                reg0 == old(self).reg@,
                forall|id: u64| reg0.contains_key(id) ==> self.reg@.contains_key(id),
            decreases fuel,
        {
            fuel = fuel - 1;
            let ev = match recv_from(&self.rx) {
                Ok(ev) => ev,
                Err(e) => {
                    proof {
                        assert(conn_run(reg0, self.reg@));
                    }
                    return Err(e);
                },
            };
            let ghost gev = ev;
            match self.reg.apply(ev) {
                Some(d) => {
                    proof {
                        let evs = conns.push(gev);
                        assert(evs.drop_last() =~= conns);
                        assert(evs.last() == gev);
                        assert(pop_run(reg0, self.reg@, evs, d.0, d.1@));
                        assert(popped_raw(reg0, self.reg@, d.0, d.1@));
                    }
                    return Ok(d);
                },
                None => {
                    proof {
                        let next = conns.push(gev);
                        assert(next.drop_last() =~= conns);
                        assert(next.last() == gev);
                        assert(all_conn(next));
                        assert(self.reg@ == absorb(reg0, next));
                        conns = next;
                    }
                },
            }
        }
        Err(Error::Io("event stream drain limit reached".to_string()))
    }

    /// Deliver a pending data event if one has already arrived, absorbing
    /// every pending accept event first; report emptiness without blocking
    /// and without losing any accept event.
    pub fn try_pop_raw(&mut self) -> (r: Result<Option<(u64, Vec<u8>)>, Error>)
        requires
            old(self).wf(),
        ensures
            final(self).wf(),
            forall|id: u64| old(self).registry().contains_key(id)
                ==> final(self).registry().contains_key(id),
            match r {
                Ok(Some(d)) => popped_raw(
                    old(self).registry(),
                    final(self).registry(),
                    d.0,
                    d.1@,
                ),
                Ok(None) => conn_run(old(self).registry(), final(self).registry()),
                Err(e) => e is Disconnected && conn_run(
                    old(self).registry(),
                    final(self).registry(),
                ),
            },
    {
        let ghost reg0 = self.reg@;
        let ghost mut conns: Seq<Event<H>> = Seq::empty();
        // Each round consumes one event; the fuel is large enough that the
        // cap is out of reach for any real backlog of accept events.
        let mut fuel: u64 = u64::MAX;
        while fuel > 0
            invariant
                self.reg.wf(),
                all_conn(conns),
                self.reg@ == absorb(reg0, conns),
                reg0 == old(self).reg@,
                forall|id: u64| reg0.contains_key(id) ==> self.reg@.contains_key(id),
            decreases fuel,
        {
            fuel = fuel - 1;
            let ev = match try_recv_from(&self.rx) {
                Ok(Some(ev)) => ev,
                Ok(None) => {
                    proof {
                        assert(conn_run(reg0, self.reg@));
                    }
                    return Ok(None);
                },
                Err(e) => {
                    proof {
                        assert(conn_run(reg0, self.reg@));
                    }
                    return Err(e);
                },
            };
            let ghost gev = ev;
            match self.reg.apply(ev) {
                Some(d) => {
                    proof {
                        let evs = conns.push(gev);
                        assert(evs.drop_last() =~= conns);
                        assert(evs.last() == gev);
                        assert(pop_run(reg0, self.reg@, evs, d.0, d.1@));
                        assert(popped_raw(reg0, self.reg@, d.0, d.1@));
                    }
                    return Ok(Some(d));
                },
                None => {
                    proof {
                        let next = conns.push(gev);
                        assert(next.drop_last() =~= conns);
                        assert(next.last() == gev);
                        assert(all_conn(next));
                        assert(self.reg@ == absorb(reg0, next));
                        conns = next;
                    }
                },
            }
        }
        Ok(None)
    }

    /// Block until a data event is available and return its connection
    /// identity with the decoded payload.
    pub fn pop(&mut self) -> (r: Result<(u64, u64), Error>)
        requires
            old(self).wf(),
        ensures
            final(self).wf(),
            forall|id: u64| old(self).registry().contains_key(id)
                ==> final(self).registry().contains_key(id),
            match r {
                Ok(d) => popped_value(old(self).registry(), final(self).registry(), d.0, d.1),
                Err(e) => {
                    ||| ((e is Disconnected || e is Io) && conn_run(
                        old(self).registry(),
                        final(self).registry(),
                    ))
                    ||| (e is Serde && popped_undecodable(
                        old(self).registry(),
                        final(self).registry(),
                    ))
                },
            },
    {
        match self.pop_raw() {
            Ok((id, data)) => match decode_u64(&data) {
                Ok(v) => {
                    proof {
                        assert(popped_value(old(self).registry(), self.registry(), id, v));
                    }
                    Ok((id, v))
                },
                Err(e) => {
                    proof {
                        assert(popped_undecodable(old(self).registry(), self.registry()));
                    }
                    Err(e)
                },
            },
            Err(e) => Err(e),
        }
    }

    /// Deliver a pending data event, decoded, if one has already arrived.
    pub fn try_pop(&mut self) -> (r: Result<Option<(u64, u64)>, Error>)
        requires
            old(self).wf(),
        ensures
            final(self).wf(),
            forall|id: u64| old(self).registry().contains_key(id)
                ==> final(self).registry().contains_key(id),
            match r {
                Ok(Some(d)) => popped_value(
                    old(self).registry(),
                    final(self).registry(),
                    d.0,
                    d.1,
                ),
                Ok(None) => conn_run(old(self).registry(), final(self).registry()),
                Err(e) => {
                    ||| (e is Disconnected && conn_run(
                        old(self).registry(),
                        final(self).registry(),
                    ))
                    ||| (e is Serde && popped_undecodable(
                        old(self).registry(),
                        final(self).registry(),
                    ))
                },
            },
    {
        match self.try_pop_raw() {
            Ok(Some((id, data))) => match decode_u64(&data) {
                Ok(v) => {
                    proof {
                        assert(popped_value(old(self).registry(), self.registry(), id, v));
                    }
                    Ok(Some((id, v)))
                },
                Err(e) => {
                    proof {
                        assert(popped_undecodable(old(self).registry(), self.registry()));
                    }
                    Err(e)
                },
            },
            Ok(None) => Ok(None),
            Err(e) => Err(e),
        }
    }
}

/// The identities whose delivery attempt failed: those whose flag is false,
/// in attempt order.
pub open spec fn failed_ids_spec(ids: Seq<u64>, ok: Seq<bool>) -> Seq<u64>
    decreases ids.len(),
{
    if ids.len() == 0 {
        Seq::empty()
    } else {
        let rest = failed_ids_spec(ids.drop_last(), ok.drop_last());
        if ids.len() <= ok.len() && !ok[ids.len() - 1] {
            rest.push(ids.last())
        } else {
            rest
        }
    }
}

/// The failed identities are drawn from the attempted ones, and a
/// duplicate-free attempt list yields a duplicate-free failure list.
proof fn lemma_failed_ids_from(ids: Seq<u64>, ok: Seq<bool>)
    ensures
        forall|k: int|
            0 <= k < failed_ids_spec(ids, ok).len() ==> ids.contains(
                #[trigger] failed_ids_spec(ids, ok)[k],
            ),
        ids.no_duplicates() ==> failed_ids_spec(ids, ok).no_duplicates(),
    decreases ids.len(),
{
    if ids.len() > 0 {
        lemma_failed_ids_from(ids.drop_last(), ok.drop_last());
        let rest = failed_ids_spec(ids.drop_last(), ok.drop_last());
        let whole = failed_ids_spec(ids, ok);
        assert forall|k: int| 0 <= k < whole.len() implies ids.contains(whole[k]) by {
            if k < rest.len() {
                let j = choose|j: int|
                    0 <= j < ids.drop_last().len() && ids.drop_last()[j] == rest[k];
                assert(ids[j] == whole[k]);
            } else {
                assert(whole[k] == ids.last());
                assert(ids[ids.len() - 1] == whole[k]);
            }
        }
        if ids.no_duplicates() {
            assert(ids.drop_last().no_duplicates());
            if ids.len() <= ok.len() && !ok[ids.len() - 1] {
                assert(!rest.contains(ids.last())) by {
                    if rest.contains(ids.last()) {
                        let k = choose|k: int| 0 <= k < rest.len() && rest[k] == ids.last();
                        let j = choose|j: int|
                            0 <= j < ids.drop_last().len() && ids.drop_last()[j] == rest[k];
                        assert(ids[j] == ids.last());
                        assert(ids[j] == ids[ids.len() - 1]);
                    }
                }
                assert(whole.no_duplicates());
            }
        }
    }
}

/// Collect the identities whose delivery attempt failed. Verified for every
/// possible combination of send outcomes, which the transport alone decides.
pub fn failed_of(ids: &Vec<u64>, ok: &Vec<bool>) -> (r: Vec<u64>)
    requires
        ids@.len() == ok@.len(),
    ensures
        r@ == failed_ids_spec(ids@, ok@),
{
    let n = ids.len();
    let mut r: Vec<u64> = Vec::new();
    let mut i: usize = 0;
    while i < n
        invariant
            0 <= i <= n,
            n == ids@.len(),
            ids@.len() == ok@.len(),
            r@ == failed_ids_spec(ids@.take(i as int), ok@.take(i as int)),
        decreases n - i,
    {
        proof {
            let p = ids@.take(i as int + 1);
            let q = ok@.take(i as int + 1);
            assert(p.drop_last() =~= ids@.take(i as int));
            assert(q.drop_last() =~= ok@.take(i as int));
            assert(p.last() == ids@[i as int]);
        }
        if !ok[i] {
            r.push(ids[i]);
        }
        i += 1;
    }
    proof {
        assert(ids@.take(n as int) =~= ids@);
        assert(ok@.take(n as int) =~= ok@);
    }
    r
}

/// A server-side queue endpoint: the consumer core over websocket send
/// handles, with addressed push and broadcast.
pub struct ServerQueue {
    core: ServerCore<ws::Sender>,
}

impl ServerQueue {
    /// The addressing table: connection identity to send handle.
    pub closed spec fn registry(self) -> Map<u64, ws::Sender> {
        self.core.registry()
    }

    pub closed spec fn wf(self) -> bool {
        self.core.wf()
    }

    /// A server endpoint over a fresh event stream; nothing is registered.
    pub fn from_receiver(rx: std::sync::mpsc::Receiver<Event<ws::Sender>>) -> (r: Self)
        ensures
            r.wf(),
            r.registry() == Map::<u64, ws::Sender>::empty(),
    {
        ServerQueue { core: ServerCore::from_receiver(rx) }
    }

    /// Send one frame to the identified connection. An unknown identity is
    /// reported as `Disconnected` with no effect on the registry; a failed
    /// send leaves the entry in place, so a later push to the same dead
    /// identity fails again rather than being silently forgotten.
    pub fn push_raw(&mut self, conn_id: u64, bytes: Vec<u8>) -> (r: Result<(), Error>)
        requires
            old(self).wf(),
        ensures
            final(self).wf(),
            final(self).registry() == old(self).registry(),
            !old(self).registry().contains_key(conn_id) ==> (r matches Err(e) && e
                is Disconnected),
            old(self).registry().contains_key(conn_id) ==> (r matches Err(e) ==> e is Io),
            r is Ok ==> old(self).registry().contains_key(conn_id),
    {
        match self.core.get(conn_id) {
            Some(out) => ws_send(out, bytes),
            None => Err(Error::Disconnected),
        }
    }

    /// Attempt one frame to every registered connection and report the
    /// identities whose delivery failed. The registry is left exactly as it
    /// was: a dead identity stays registered and will fail again.
    pub fn push_raw_all(&mut self, bytes: Vec<u8>) -> (r: Result<Vec<u64>, Error>)
        requires
            old(self).wf(),
        ensures
            final(self).wf(),
            final(self).registry() == old(self).registry(),
            r is Ok,
            r matches Ok(failed) ==> failed@.no_duplicates() && (forall|k: int|
                0 <= k < failed@.len() ==> old(self).registry().contains_key(
                    #[trigger] failed@[k],
                )),
            r matches Ok(failed) ==> exists|ids: Seq<u64>, ok: Seq<bool>|
                ids.no_duplicates() && ids.len() == ok.len() && (forall|j: int|
                    0 <= j < ids.len() ==> old(self).registry().contains_key(#[trigger] ids[j]))
                    && (forall|id: u64|
                    old(self).registry().contains_key(id) ==> ids.contains(id)) && failed@
                    == failed_ids_spec(ids, ok),
    {
        let ids = self.core.ids();
        let n = ids.len();
        let mut ok: Vec<bool> = Vec::new();
        let mut i: usize = 0;
        while i < n
            invariant
                0 <= i <= n,
                n == ids@.len(),
                ok@.len() == i,
                self.wf(),
                self.registry() == old(self).registry(),
                forall|j: int| 0 <= j < ids@.len() ==> self.registry().contains_key(
                    #[trigger] ids@[j],
                ),
            decreases n - i,
        {
            let sent = match self.core.get(ids[i]) {
                Some(out) => ws_send(out, copy_bytes(&bytes)),
                None => Err(Error::Disconnected),
            };
            ok.push(sent.is_ok());
            i += 1;
        }
        let failed = failed_of(&ids, &ok);
        proof {
            lemma_failed_ids_from(ids@, ok@);
            assert forall|k: int|
                0 <= k < failed@.len() implies old(self).registry().contains_key(
                #[trigger] failed@[k],
            ) by {
                let j = choose|j: int| 0 <= j < ids@.len() && ids@[j] == failed@[k];
                assert(old(self).registry().contains_key(ids@[j]));
            }
        }
        Ok(failed)
    }

    /// Encode the item and send it to the identified connection. The frame
    /// that leaves is the item's JSON text, so a pop of that frame decodes
    /// back to the item.
    pub fn push(&mut self, item: (u64, u64)) -> (r: Result<(), Error>)
        requires
            old(self).wf(),
        ensures
            final(self).wf(),
            u64_of_json(json_bytes_of(item.1)) == Some(item.1),
            final(self).registry() == old(self).registry(),
            !old(self).registry().contains_key(item.0) ==> (r matches Err(e) && e
                is Disconnected),
            old(self).registry().contains_key(item.0) ==> (r matches Err(e) ==> e is Io),
            r is Ok ==> old(self).registry().contains_key(item.0),
    {
        let bytes = encode_u64(item.1);
        self.push_raw(item.0, bytes)
    }

    /// Encode the item once and attempt it to every registered connection,
    /// reporting the identities whose delivery failed. The frame that leaves
    /// is the item's JSON text, so a pop of that frame decodes back to the
    /// item.
    pub fn push_all(&mut self, item: u64) -> (r: Result<Vec<u64>, Error>)
        requires
            old(self).wf(),
        ensures
            final(self).wf(),
            u64_of_json(json_bytes_of(item)) == Some(item),
            final(self).registry() == old(self).registry(),
            r is Ok,
            r matches Ok(failed) ==> failed@.no_duplicates() && (forall|k: int|
                0 <= k < failed@.len() ==> old(self).registry().contains_key(
                    #[trigger] failed@[k],
                )),
            r matches Ok(failed) ==> exists|ids: Seq<u64>, ok: Seq<bool>|
                ids.no_duplicates() && ids.len() == ok.len() && (forall|j: int|
                    0 <= j < ids.len() ==> old(self).registry().contains_key(#[trigger] ids[j]))
                    && (forall|id: u64|
                    old(self).registry().contains_key(id) ==> ids.contains(id)) && failed@
                    == failed_ids_spec(ids, ok),
    {
        let bytes = encode_u64(item);
        self.push_raw_all(bytes)
    }

    /// Block until a data event is available and return its connection
    /// identity with the decoded payload; accept events met on the way are
    /// registered first.
    pub fn pop(&mut self) -> (r: Result<(u64, u64), Error>)
        requires
            old(self).wf(),
        ensures
            final(self).wf(),
            forall|id: u64| old(self).registry().contains_key(id)
                ==> final(self).registry().contains_key(id),
            match r {
                Ok(d) => popped_value(old(self).registry(), final(self).registry(), d.0, d.1),
                Err(e) => {
                    ||| ((e is Disconnected || e is Io) && conn_run(
                        old(self).registry(),
                        final(self).registry(),
                    ))
                    ||| (e is Serde && popped_undecodable(
                        old(self).registry(),
                        final(self).registry(),
                    ))
                },
            },
    {
        self.core.pop()
    }

    /// Deliver a pending data event, decoded, if one has already arrived;
    /// pending accept events are registered even when no data is ready.
    pub fn try_pop(&mut self) -> (r: Result<Option<(u64, u64)>, Error>)
        requires
            old(self).wf(),
        ensures
            final(self).wf(),
            forall|id: u64| old(self).registry().contains_key(id)
                ==> final(self).registry().contains_key(id),
            match r {
                Ok(Some(d)) => popped_value(
                    old(self).registry(),
                    final(self).registry(),
                    d.0,
                    d.1,
                ),
                Ok(None) => conn_run(old(self).registry(), final(self).registry()),
                Err(e) => {
                    ||| (e is Disconnected && conn_run(
                        old(self).registry(),
                        final(self).registry(),
                    ))
                    ||| (e is Serde && popped_undecodable(
                        old(self).registry(),
                        final(self).registry(),
                    ))
                },
            },
    {
        self.core.try_pop()
    }
}

/// The source of connection identities: opaque integers assigned at accept
/// time, strictly increasing, starting at 1, never reused, and never shown
/// to the owning client.
pub struct IdentityCounter {
    next: u64,
}

impl IdentityCounter {
    /// The identity the next accepted connection will receive.
    pub closed spec fn next_id(self) -> u64 {
        self.next
    }

    pub fn new() -> (r: Self)
        ensures
            r.next_id() == 1,
    {
        IdentityCounter { next: 1 }
    }

    /// Whether another identity can still be assigned.
    pub fn has_next(&self) -> (r: bool)
        ensures
            r == (self.next_id() < u64::MAX),
    {
        self.next < u64::MAX
    }

    /// Assign the next identity. Each call returns the current identity and
    /// advances by one, so successive identities are strictly increasing.
    pub fn fresh(&mut self) -> (id: u64)
        requires
            old(self).next_id() < u64::MAX,
        ensures
            id == old(self).next_id(),
            final(self).next_id() == id + 1,
    {
        let id = self.next;
        self.next = self.next + 1;
        id
    }
}

/// A verified byte-for-byte copy, used to hand each connection its own frame.
fn copy_bytes(v: &Vec<u8>) -> (r: Vec<u8>)
    ensures
        r@ == v@,
{
    let n = v.len();
    let mut r: Vec<u8> = Vec::new();
    let mut i: usize = 0;
    while i < n
        invariant
            0 <= i <= n,
            n == v@.len(),
            r@ == v@.take(i as int),
        decreases n - i,
    {
        r.push(v[i]);
        proof {
            assert(v@.take(i as int + 1) =~= v@.take(i as int).push(v@[i as int]));
        }
        i += 1;
    }
    proof {
        assert(v@.take(n as int) =~= v@);
    }
    r
}

} // verus!
