//! Sharing validated records out to the shards, in batches and in order.

use crate::pipeline;
use crate::pipeline::{Entry, Ticket};
use crate::route;
use crate::route::Router;
use vstd::prelude::*;

verus! {

/// How many records a shard receives per message.
///
/// Large enough that the per-message cost of the channel disappears against the work, small
/// enough that a shard yields to the runtime often and that an in-flight batch is a
/// negligible amount of memory.
pub const BATCH: usize = 1024;

/// How many records the reader stages before routing them.
///
/// Routing a chunk at a time amortises the channel send and keeps the routing loop in one
/// place.
pub const CHUNK: usize = 4096;

/// A batch on its way to a shard.
#[derive(Debug)]
pub struct Parcel {
    pub shard: usize,
    pub entries: Vec<Entry>,
}

/// What a [`Parcel`] carries.
#[verifier::ext_equal]
pub struct Load {
    pub shard: int,
    pub entries: Seq<Ticket>,
}

impl View for Parcel {
    type V = Load;

    open spec fn view(&self) -> Load {
        Load { shard: self.shard as int, entries: pipeline::tickets(self.entries@) }
    }
}

/// What a list of parcels carries.
pub open spec fn loads(parcels: Seq<Parcel>) -> Seq<Load> {
    parcels.map_values(|parcel: Parcel| parcel@)
}

/// Stages records, routes them a chunk at a time, and packs them into a batch per shard.
#[derive(Debug)]
pub struct Dispatcher {
    router: Router,
    staged: Vec<Entry>,
    clients: Vec<u32>,
    targets: Vec<u32>,
    batches: Vec<Vec<Entry>>,
}

/// The records that have not left yet: those staged, and behind them the batch of each shard.
#[verifier::ext_equal]
pub struct Pending {
    pub router: Router,
    pub staged: Seq<Ticket>,
    pub batches: Seq<Seq<Ticket>>,
}

/// The shard that a record goes to: the one that owns its client.
pub open spec fn shard_for(router: Router, entry: Ticket) -> int {
    router.shard_of(entry.instruction.client() as u32)
}

/// Packs a record into the batch of its shard, and sends the batch once it is full.
pub open spec fn packed(batches: Seq<Seq<Ticket>>, shard: int, entry: Ticket) -> (
    Seq<Seq<Ticket>>,
    Seq<Load>,
) {
    let batch = batches[shard].push(entry);
    if batch.len() == BATCH {
        (batches.update(shard, Seq::empty()), seq![Load { shard, entries: batch }])
    } else {
        (batches.update(shard, batch), Seq::empty())
    }
}

/// Packs a series of records in turn.
pub open spec fn routed(router: Router, batches: Seq<Seq<Ticket>>, entries: Seq<Ticket>) -> (
    Seq<Seq<Ticket>>,
    Seq<Load>,
)
    decreases entries.len(),
{
    if entries.len() == 0 {
        (batches, Seq::empty())
    } else {
        let (before, sent) = routed(router, batches, entries.drop_last());
        let (after, more) = packed(before, shard_for(router, entries.last()), entries.last());
        (after, sent + more)
    }
}

/// The batches of the first shards that hold anything, in the order of the shards.
pub open spec fn leftovers(batches: Seq<Seq<Ticket>>, shards: nat) -> Seq<Load>
    decreases shards,
{
    if shards == 0 {
        Seq::empty()
    } else {
        let before = leftovers(batches, (shards - 1) as nat);
        if batches[shards - 1].len() > 0 {
            before.push(Load { shard: shards - 1, entries: batches[shards - 1] })
        } else {
            before
        }
    }
}

impl Pending {
    /// Nothing staged and nothing packed.
    pub open spec fn nothing(router: Router) -> Pending {
        Pending {
            router,
            staged: Seq::empty(),
            batches: Seq::new(router.shard_count() as nat, |shard: int| Seq::empty()),
        }
    }

    /// There is a batch for each shard, and neither the stage nor a batch is full.
    pub open spec fn valid(self) -> bool {
        &&& self.router.shard_count() > 0
        &&& self.staged.len() < CHUNK
        &&& self.batches.len() == self.router.shard_count()
        &&& forall|shard: int|
            0 <= shard < self.batches.len() ==> (#[trigger] self.batches[shard]).len() < BATCH
    }

    /// Routes what is staged.
    pub open spec fn flush(self) -> (Pending, Seq<Load>) {
        let (batches, sent) = routed(self.router, self.batches, self.staged);
        (Pending { staged: Seq::empty(), batches, ..self }, sent)
    }

    /// Stages one more record, and routes the chunk once it is full.
    pub open spec fn stage(self, entry: Ticket) -> (Pending, Seq<Load>) {
        let next = Pending { staged: self.staged.push(entry), ..self };
        if next.staged.len() == CHUNK {
            next.flush()
        } else {
            (next, Seq::empty())
        }
    }

    /// Everything that has not left yet.
    pub open spec fn close(self) -> Seq<Load> {
        let (next, sent) = self.flush();
        sent + leftovers(next.batches, next.batches.len())
    }
}

impl View for Dispatcher {
    type V = Pending;

    closed spec fn view(&self) -> Pending {
        Pending {
            router: self.router,
            staged: pipeline::tickets(self.staged@),
            batches: self.batches@.map_values(|batch: Vec<Entry>| pipeline::tickets(batch@)),
        }
    }
}

/// Routing leaves as many batches as there were, none of them full.
proof fn routing_fills_no_batch(router: Router, batches: Seq<Seq<Ticket>>, entries: Seq<Ticket>)
    requires
        router.shard_count() > 0,
        batches.len() == router.shard_count(),
        forall|shard: int| 0 <= shard < batches.len() ==> (#[trigger] batches[shard]).len() < BATCH,
    ensures
        ({
            let (after, sent) = routed(router, batches, entries);
            &&& after.len() == batches.len()
            &&& forall|shard: int|
                0 <= shard < after.len() ==> (#[trigger] after[shard]).len() < BATCH
            &&& forall|i: int|
                0 <= i < sent.len() ==> 0 <= (#[trigger] sent[i]).shard < batches.len()
                    && sent[i].entries.len() == BATCH
        }),
    decreases entries.len(),
{
    if entries.len() > 0 {
        let last = entries.last();
        routing_fills_no_batch(router, batches, entries.drop_last());
        route::reduction_is_uniform(
            route::mixed(last.instruction.client() as u32, router.seed()),
            router.shard_count(),
        );
    }
}

impl Dispatcher {
    /// The parts that are no records have the sizes that they need.
    closed spec fn sized(self) -> bool {
        self.targets@.len() == CHUNK
    }

    /// The dispatcher is in order.
    pub closed spec fn wf(self) -> bool {
        self@.valid() && self.sized()
    }

    /// A dispatcher for the shards of `router`.
    pub fn new(router: Router) -> (dispatcher: Dispatcher)
        ensures
            dispatcher.wf(),
            dispatcher@ == Pending::nothing(router),
            dispatcher@.valid(),
    {
        let shards: usize = router.shards();
        let mut batches: Vec<Vec<Entry>> = Vec::with_capacity(shards);
        let mut made: usize = 0;
        while made < shards
            invariant
                made <= shards,
                batches@.len() == made,
                forall|i: int| 0 <= i < made ==> (#[trigger] batches@[i])@ == Seq::<Entry>::empty(),
            decreases shards - made,
        {
            batches.push(Vec::with_capacity(BATCH));
            made = made + 1;
        }
        let dispatcher = Dispatcher {
            router,
            staged: Vec::with_capacity(CHUNK),
            clients: Vec::with_capacity(CHUNK),
            targets: vec![0; CHUNK],
            batches,
        };
        assert(dispatcher@ =~= Pending::nothing(router));
        dispatcher
    }

    /// Routes the staged chunk into per-shard batches. Any batch that fills up is sent.
    fn flush_chunk(&mut self) -> (parcels: Vec<Parcel>)
        requires
            old(self).sized(),
            old(self)@.staged.len() <= CHUNK,
            old(self)@.router.shard_count() > 0,
            old(self)@.batches.len() == old(self)@.router.shard_count(),
            forall|shard: int|
                0 <= shard < old(self)@.batches.len() ==> (#[trigger] old(
                    self,
                )@.batches[shard]).len() < BATCH,
        ensures
            final(self).wf(),
            (final(self)@, loads(parcels@)) == old(self)@.flush(),
    {
        let mut parcels: Vec<Parcel> = Vec::new();
        let ghost start = old(self)@;
        proof {
            routing_fills_no_batch(start.router, start.batches, start.staged);
        }
        self.clients.clear();
        let mut collected: usize = 0;
        while collected < self.staged.len()
            invariant
                self.sized(),
                self@ == start,
                collected <= self.staged@.len() <= CHUNK,
                self.clients@.len() == collected,
                forall|i: int|
                    0 <= i < collected ==> #[trigger] self.clients@[i]
                        == self.staged@[i].transaction@.client() as u32,
            decreases self.staged@.len() - collected,
        {
            let client: u16 = self.staged[collected].transaction.client();
            self.clients.push(client as u32);
            collected = collected + 1;
        }
        self.router.route_into(self.clients.as_slice(), self.targets.as_mut_slice());
        let mut done: usize = 0;
        assert(loads(parcels@) =~= Seq::empty());
        assert(start.staged.take(0) =~= Seq::empty());
        while done < self.staged.len()
            invariant
                self.sized(),
                start.router.shard_count() > 0,
                start.batches.len() == start.router.shard_count(),
                forall|shard: int|
                    0 <= shard < start.batches.len() ==> (#[trigger] start.batches[shard]).len()
                        < BATCH,
                self@.router == start.router,
                self@.staged == start.staged,
                done <= self.staged@.len() <= CHUNK,
                forall|i: int|
                    0 <= i < self.staged@.len() ==> #[trigger] self.targets@[i] == shard_for(
                        start.router,
                        self.staged@[i]@,
                    ),
                (self@.batches, loads(parcels@)) == routed(
                    start.router,
                    start.batches,
                    start.staged.take(done as int),
                ),
            decreases self.staged@.len() - done,
        {
            let entry = self.staged[done];
            let shard: usize = self.targets[done] as usize;
            let ghost before = self@.batches;
            let ghost packs = self.batches@;
            let ghost sent = loads(parcels@);
            proof {
                assert(start.staged.take(done + 1).drop_last() =~= start.staged.take(done as int));
                routing_fills_no_batch(
                    start.router,
                    start.batches,
                    start.staged.take(done as int),
                );
                route::reduction_is_uniform(
                    route::mixed(entry@.instruction.client() as u32, start.router.seed()),
                    start.router.shard_count(),
                );
            }
            self.batches[shard].push(entry);
            if self.batches[shard].len() == BATCH {
                let mut batch: Vec<Entry> = Vec::with_capacity(BATCH);
                std::mem::swap(&mut batch, &mut self.batches[shard]);
                parcels.push(Parcel { shard, entries: batch });
            }
            proof {
                let (after, more) = packed(before, shard as int, entry@);
                pipeline::tickets_push(packs[shard as int]@, entry);
                assert(self@.batches =~= after);
                assert(loads(parcels@) =~= sent + more);
            }
            done = done + 1;
        }
        assert(start.staged.take(done as int) =~= start.staged);
        self.staged.clear();
        parcels
    }

    /// Takes one more record. What comes back has to be sent, in this order.
    pub fn stage(&mut self, entry: Entry) -> (parcels: Vec<Parcel>)
        requires
            old(self).wf(),
        ensures
            final(self).wf(),
            (final(self)@, loads(parcels@)) == old(self)@.stage(entry@),
    {
        proof {
            pipeline::tickets_push(self.staged@, entry);
        }
        self.staged.push(entry);
        if self.staged.len() == CHUNK {
            self.flush_chunk()
        } else {
            let parcels: Vec<Parcel> = Vec::new();
            assert(loads(parcels@) =~= Seq::empty());
            parcels
        }
    }

    /// Hands over everything that has not left yet. It has to be sent in this order.
    pub fn close(&mut self) -> (parcels: Vec<Parcel>)
        requires
            old(self).wf(),
        ensures
            final(self).wf(),
            final(self)@ == Pending::nothing(old(self)@.router),
            loads(parcels@) == old(self)@.close(),
    {
        let mut parcels = self.flush_chunk();
        let ghost sent = loads(parcels@);
        let ghost packed = self@.batches;
        let ghost router = old(self)@.router;
        let mut shard: usize = 0;
        assert(sent + leftovers(packed, 0) =~= sent);
        while shard < self.batches.len()
            invariant
                self.sized(),
                router.shard_count() > 0,
                shard <= self.batches@.len(),
                self.batches@.len() == packed.len() == router.shard_count(),
                self@.router == router,
                self@.staged == Seq::<Ticket>::empty(),
                loads(parcels@) == sent + leftovers(packed, shard as nat),
                forall|i: int|
                    0 <= i < packed.len() ==> #[trigger] self@.batches[i] == if i < shard {
                        Seq::<Ticket>::empty()
                    } else {
                        packed[i]
                    },
            decreases self.batches@.len() - shard,
        {
            let ghost before = loads(parcels@);
            let ghost packs = self@.batches;
            let mut batch: Vec<Entry> = Vec::new();
            assert(pipeline::tickets(batch@) =~= Seq::<Ticket>::empty());
            assert(packs[shard as int] == packed[shard as int]);
            std::mem::swap(&mut batch, &mut self.batches[shard]);
            assert(pipeline::tickets(batch@) == packed[shard as int]);
            assert(self@.batches =~= packs.update(shard as int, Seq::empty()));
            if batch.len() > 0 {
                parcels.push(Parcel { shard, entries: batch });
            }
            proof {
                if packed[shard as int].len() > 0 {
                    assert(loads(parcels@) =~= before.push(
                        Load { shard: shard as int, entries: packed[shard as int] },
                    ));
                } else {
                    assert(packed[shard as int] =~= Seq::empty());
                }
                assert(loads(parcels@) =~= sent + leftovers(packed, shard as nat + 1));
            }
            shard = shard + 1;
        }
        assert(self@ =~= Pending::nothing(router));
        parcels
    }
}

/// What a series of parcels brings to one shard, in the order in which it was sent.
pub open spec fn delivered(sent: Seq<Load>, shard: int) -> Seq<Ticket>
    decreases sent.len(),
{
    if sent.len() == 0 {
        Seq::empty()
    } else if sent.last().shard == shard {
        delivered(sent.drop_last(), shard) + sent.last().entries
    } else {
        delivered(sent.drop_last(), shard)
    }
}

/// The records that belong to one shard, in their order.
pub open spec fn entries_for(router: Router, entries: Seq<Ticket>, shard: int) -> Seq<Ticket>
    decreases entries.len(),
{
    if entries.len() == 0 {
        Seq::empty()
    } else if shard_for(router, entries.last()) == shard {
        entries_for(router, entries.drop_last(), shard).push(entries.last())
    } else {
        entries_for(router, entries.drop_last(), shard)
    }
}

/// What is sent in two goes is delivered in two goes.
proof fn deliveries_follow_each_other(first: Seq<Load>, second: Seq<Load>, shard: int)
    ensures
        delivered(first + second, shard) == delivered(first, shard) + delivered(second, shard),
    decreases second.len(),
{
    let both = first + second;
    if second.len() == 0 {
        assert(both =~= first);
    } else {
        assert(both.drop_last() =~= first + second.drop_last());
        deliveries_follow_each_other(first, second.drop_last(), shard);
    }
}

/// Routing keeps the order within a shard: what was packed for it, followed by the records
/// that belong to it, is what is sent to it, followed by what stays packed.
proof fn routing_keeps_the_order(
    router: Router,
    batches: Seq<Seq<Ticket>>,
    entries: Seq<Ticket>,
    shard: int,
)
    requires
        router.shard_count() > 0,
        batches.len() == router.shard_count(),
        forall|i: int| 0 <= i < batches.len() ==> (#[trigger] batches[i]).len() < BATCH,
        0 <= shard < router.shard_count(),
    ensures
        delivered(routed(router, batches, entries).1, shard) + routed(
            router,
            batches,
            entries,
        ).0[shard] == batches[shard] + entries_for(router, entries, shard),
    decreases entries.len(),
{
    if entries.len() > 0 {
        let before = entries.drop_last();
        let last = entries.last();
        let target = shard_for(router, last);
        let (held, sent) = routed(router, batches, before);
        let (after, more) = packed(held, target, last);
        routing_fills_no_batch(router, batches, before);
        routing_keeps_the_order(router, batches, before, shard);
        route::reduction_is_uniform(
            route::mixed(last.instruction.client() as u32, router.seed()),
            router.shard_count(),
        );
        deliveries_follow_each_other(sent, more, shard);
        if more.len() > 0 {
            assert(more.drop_last() =~= Seq::empty());
            assert(delivered(more.drop_last(), shard) =~= Seq::empty());
        }
        if target == shard {
            assert(delivered(more, shard) + after[shard] =~= held[shard].push(last));
            assert(delivered(sent + more, shard) + after[shard] =~= (delivered(sent, shard)
                + held[shard]).push(last));
            assert(batches[shard] + entries_for(router, entries, shard) =~= (batches[shard]
                + entries_for(router, before, shard)).push(last));
        } else {
            assert(delivered(more, shard) =~= Seq::empty());
            assert(delivered(sent + more, shard) =~= delivered(sent, shard));
        }
    } else {
        assert(delivered(Seq::empty(), shard) + batches[shard] =~= batches[shard] + entries_for(
            router,
            entries,
            shard,
        ));
    }
}

/// Handing over the batches brings each shard what was packed for it.
proof fn leftovers_are_delivered(batches: Seq<Seq<Ticket>>, shards: nat, shard: int)
    requires
        0 <= shard,
        shards <= batches.len(),
    ensures
        delivered(leftovers(batches, shards), shard) == if shard < shards {
            batches[shard]
        } else {
            Seq::empty()
        },
    decreases shards,
{
    if shards > 0 {
        let before = leftovers(batches, (shards - 1) as nat);
        let all = leftovers(batches, shards);
        leftovers_are_delivered(batches, (shards - 1) as nat, shard);
        if batches[shards - 1].len() > 0 {
            assert(all.drop_last() =~= before);
        } else {
            assert(batches[shards - 1] =~= Seq::empty());
        }
    }
}

/// What is sent while a series of records is staged.
pub open spec fn fed(pending: Pending, entries: Seq<Ticket>) -> (Pending, Seq<Load>)
    decreases entries.len(),
{
    if entries.len() == 0 {
        (pending, Seq::empty())
    } else {
        let (before, sent) = fed(pending, entries.drop_last());
        let (after, more) = before.stage(entries.last());
        (after, sent + more)
    }
}

/// What has not left yet for a shard, in order.
spec fn owed(pending: Pending, shard: int) -> Seq<Ticket> {
    pending.batches[shard] + entries_for(pending.router, pending.staged, shard)
}

/// Flushing sends to a shard what it is owed, or keeps it packed.
proof fn flushing_keeps_the_order(pending: Pending, shard: int)
    requires
        pending.router.shard_count() > 0,
        pending.batches.len() == pending.router.shard_count(),
        forall|i: int|
            0 <= i < pending.batches.len() ==> (#[trigger] pending.batches[i]).len() < BATCH,
        0 <= shard < pending.router.shard_count(),
    ensures
        delivered(pending.flush().1, shard) + pending.flush().0.batches[shard] == owed(
            pending,
            shard,
        ),
        pending.flush().0.valid(),
{
    routing_fills_no_batch(pending.router, pending.batches, pending.staged);
    routing_keeps_the_order(pending.router, pending.batches, pending.staged, shard);
}

/// Staging one more record sends to a shard what it is owed, or keeps it in order.
proof fn staging_keeps_the_order(pending: Pending, entry: Ticket, shard: int)
    requires
        pending.valid(),
        0 <= shard < pending.router.shard_count(),
    ensures
        ({
            let (after, sent) = pending.stage(entry);
            &&& after.valid()
            &&& after.router == pending.router
            &&& delivered(sent, shard) + owed(after, shard) == owed(pending, shard) + entries_for(
                pending.router,
                seq![entry],
                shard,
            )
        }),
{
    let (after, sent) = pending.stage(entry);
    let next = Pending { staged: pending.staged.push(entry), ..pending };
    assert(next.staged.drop_last() =~= pending.staged);
    assert(seq![entry].drop_last() =~= Seq::empty());
    assert(entries_for(pending.router, seq![entry].drop_last(), shard) =~= Seq::empty());
    assert(owed(next, shard) =~= owed(pending, shard) + entries_for(
        pending.router,
        seq![entry],
        shard,
    ));
    if next.staged.len() == CHUNK {
        flushing_keeps_the_order(next, shard);
        assert(owed(after, shard) =~= after.batches[shard]);
    } else {
        assert(delivered(sent, shard) + owed(after, shard) =~= owed(after, shard));
    }
}

/// While records are staged, every shard is sent its own, in order.
proof fn feeding_keeps_the_order(pending: Pending, entries: Seq<Ticket>, shard: int)
    requires
        pending.valid(),
        0 <= shard < pending.router.shard_count(),
    ensures
        ({
            let (after, sent) = fed(pending, entries);
            &&& after.valid()
            &&& after.router == pending.router
            &&& delivered(sent, shard) + owed(after, shard) == owed(pending, shard) + entries_for(
                pending.router,
                entries,
                shard,
            )
        }),
    decreases entries.len(),
{
    if entries.len() == 0 {
        assert(entries_for(pending.router, entries, shard) =~= Seq::empty());
        assert(delivered(fed(pending, entries).1, shard) =~= Seq::empty());
        assert(owed(pending, shard) + Seq::empty() =~= Seq::empty() + owed(pending, shard));
    } else {
        let before = entries.drop_last();
        let last = entries.last();
        let (held, sent) = fed(pending, before);
        let (after, more) = held.stage(last);
        feeding_keeps_the_order(pending, before, shard);
        staging_keeps_the_order(held, last, shard);
        deliveries_follow_each_other(sent, more, shard);
        assert(seq![last].drop_last() =~= Seq::empty());
        assert(entries_for(pending.router, seq![last].drop_last(), shard) =~= Seq::empty());
        assert(entries_for(pending.router, before, shard) + entries_for(
            pending.router,
            seq![last],
            shard,
        ) =~= entries_for(pending.router, entries, shard));
        assert(delivered(sent + more, shard) + owed(after, shard) =~= delivered(sent, shard) + (
        delivered(more, shard) + owed(after, shard)));
        assert(delivered(sent, shard) + (owed(held, shard) + entries_for(
            pending.router,
            seq![last],
            shard,
        )) =~= (delivered(sent, shard) + owed(held, shard)) + entries_for(
            pending.router,
            seq![last],
            shard,
        ));
        assert((owed(pending, shard) + entries_for(pending.router, before, shard)) + entries_for(
            pending.router,
            seq![last],
            shard,
        ) =~= owed(pending, shard) + entries_for(pending.router, entries, shard));
    }
}

/// Every shard receives exactly the records of its clients, each once and in input order,
/// however they were cut into chunks and batches.
pub proof fn every_shard_receives_its_records_in_order(
    router: Router,
    entries: Seq<Ticket>,
    shard: int,
)
    requires
        0 <= shard < router.shard_count(),
    ensures
        ({
            let (pending, sent) = fed(Pending::nothing(router), entries);
            delivered(sent + pending.close(), shard) == entries_for(router, entries, shard)
        }),
{
    let nothing = Pending::nothing(router);
    let (pending, sent) = fed(nothing, entries);
    let (last, more) = pending.flush();
    feeding_keeps_the_order(nothing, entries, shard);
    flushing_keeps_the_order(pending, shard);
    leftovers_are_delivered(last.batches, last.batches.len(), shard);
    deliveries_follow_each_other(more, leftovers(last.batches, last.batches.len()), shard);
    deliveries_follow_each_other(sent, pending.close(), shard);
    assert(owed(nothing, shard) =~= Seq::empty());
    assert(owed(nothing, shard) + entries_for(router, entries, shard) =~= entries_for(
        router,
        entries,
        shard,
    ));
}

} // verus!
