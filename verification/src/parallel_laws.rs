//! What the sharded pipeline as a whole puts out, whatever the number of shards and however
//! the records are cut into batches.

use crate::account::Row;
use crate::account_laws;
use crate::dispatch;
use crate::dispatch::{Load, Pending};
use crate::engine::EngineState;
use crate::output;
use crate::parallel;
use crate::parallel::{Line, Notice, Step};
use crate::pipeline;
use crate::pipeline::{Fetched, Item, Report, Ticket};
use crate::record;
use crate::route;
use crate::route::Router;
use crate::sharding_laws;
use vstd::prelude::*;

verus! {

/// Batches one after the other.
pub open spec fn in_a_row(batches: Seq<Seq<Ticket>>) -> Seq<Ticket>
    decreases batches.len(),
{
    if batches.len() == 0 {
        Seq::empty()
    } else {
        in_a_row(batches.drop_last()) + batches.last()
    }
}

/// What a shard comes to, and what it hands to the writer, while it applies batches in turn.
pub open spec fn worked(engine: EngineState, batches: Seq<Seq<Ticket>>) -> (
    EngineState,
    Seq<Notice>,
)
    decreases batches.len(),
{
    if batches.len() == 0 {
        (engine, Seq::empty())
    } else {
        let (before, sent) = worked(engine, batches.drop_last());
        let end = sharding_laws::run(before, parallel::instructions(batches.last()));
        (
            parallel::taken_from(end),
            sent + parallel::as_rejections(parallel::refusals(before, batches.last()))
                + parallel::as_notices(end.evicted),
        )
    }
}

/// The rows among the messages to the writer.
pub open spec fn rows_in(notices: Seq<Notice>) -> Seq<Row>
    decreases notices.len(),
{
    if notices.len() == 0 {
        Seq::empty()
    } else {
        match notices.last() {
            Notice::Row(row) => rows_in(notices.drop_last()).push(row),
            _ => rows_in(notices.drop_last()),
        }
    }
}

/// The rejected records among the messages to the writer.
pub open spec fn rejections_in(notices: Seq<Notice>) -> Seq<Report>
    decreases notices.len(),
{
    if notices.len() == 0 {
        Seq::empty()
    } else {
        match notices.last() {
            Notice::Rejected(report) => rejections_in(notices.drop_last()).push(report),
            _ => rejections_in(notices.drop_last()),
        }
    }
}

/// Picking from two lists is picking from one after the other.
proof fn picking_in_two_goes(first: Seq<Notice>, second: Seq<Notice>)
    ensures
        rows_in(first + second) == rows_in(first) + rows_in(second),
        rejections_in(first + second) == rejections_in(first) + rejections_in(second),
    decreases second.len(),
{
    let both = first + second;
    if second.len() == 0 {
        assert(both =~= first);
    } else {
        assert(both.drop_last() =~= first + second.drop_last());
        picking_in_two_goes(first, second.drop_last());
    }
}

/// Among rows there are rows only.
proof fn rows_are_rows(rows: Seq<Row>)
    ensures
        rows_in(parallel::as_notices(rows)) == rows,
        rejections_in(parallel::as_notices(rows)) == Seq::<Report>::empty(),
    decreases rows.len(),
{
    if rows.len() > 0 {
        assert(parallel::as_notices(rows).drop_last() =~= parallel::as_notices(rows.drop_last()));
        rows_are_rows(rows.drop_last());
        assert(rows.drop_last().push(rows.last()) =~= rows);
    }
}

/// Among rejected records there are rejected records only.
proof fn rejections_are_rejections(reports: Seq<Report>)
    ensures
        rows_in(parallel::as_rejections(reports)) == Seq::<Row>::empty(),
        rejections_in(parallel::as_rejections(reports)) == reports,
    decreases reports.len(),
{
    if reports.len() > 0 {
        assert(parallel::as_rejections(reports).drop_last() =~= parallel::as_rejections(
            reports.drop_last(),
        ));
        rejections_are_rejections(reports.drop_last());
        assert(reports.drop_last().push(reports.last()) =~= reports);
    }
}

/// Rejected records and then rows are told apart again.
pub proof fn rejections_and_then_rows(reports: Seq<Report>, rows: Seq<Row>)
    ensures
        ({
            let all = parallel::as_rejections(reports) + parallel::as_notices(rows);
            rows_in(all) == rows && rejections_in(all) == reports
        }),
{
    picking_in_two_goes(parallel::as_rejections(reports), parallel::as_notices(rows));
    rejections_are_rejections(reports);
    rows_are_rows(rows);
    assert(Seq::<Row>::empty() + rows =~= rows);
    assert(reports + Seq::<Report>::empty() =~= reports);
}

/// What two lists of records ask for.
proof fn asking_in_two_goes(first: Seq<Ticket>, second: Seq<Ticket>)
    ensures
        parallel::instructions(first + second) == parallel::instructions(first)
            + parallel::instructions(second),
{
    assert(parallel::instructions(first + second) =~= parallel::instructions(first)
        + parallel::instructions(second));
}

/// Instructions in two goes are refused as they are in one.
proof fn refusing_in_two_goes(engine: EngineState, first: Seq<Ticket>, second: Seq<Ticket>)
    ensures
        parallel::refusals(engine, first + second) == parallel::refusals(engine, first)
            + parallel::refusals(
            sharding_laws::run(engine, parallel::instructions(first)),
            second,
        ),
    decreases second.len(),
{
    let both = first + second;
    let middle = sharding_laws::run(engine, parallel::instructions(first));
    let early = parallel::refusals(engine, first);
    if second.len() == 0 {
        assert(both =~= first);
        pipeline::grouping_makes_no_difference(early, Seq::empty(), Seq::empty());
    } else {
        let before = second.drop_last();
        let late = parallel::refusals(middle, before);
        let last = parallel::refusal(
            sharding_laws::run(middle, parallel::instructions(before)),
            second.last(),
        );
        refusing_in_two_goes(engine, first, before);
        asking_in_two_goes(first, before);
        sharding_laws::running_in_two_goes(
            engine,
            parallel::instructions(first),
            parallel::instructions(before),
        );
        assert(both.drop_last() =~= first + before);
        pipeline::grouping_makes_no_difference(early, late, last);
    }
}

/// Rows that wait to be taken make no difference to what an engine does: with or without them
/// it ends up with the same accounts and the same frozen clients, answers alike, and evicts
/// the same further rows.
pub proof fn waiting_rows_make_no_difference(engine: EngineState, tickets: Seq<Ticket>)
    ensures
        ({
            let taken = parallel::taken_from(engine);
            let end = sharding_laws::run(engine, parallel::instructions(tickets));
            let other = sharding_laws::run(taken, parallel::instructions(tickets));
            &&& end == EngineState { evicted: engine.evicted + other.evicted, ..other }
            &&& parallel::refusals(engine, tickets) == parallel::refusals(taken, tickets)
        }),
    decreases tickets.len(),
{
    let taken = parallel::taken_from(engine);
    if tickets.len() == 0 {
        assert(engine.evicted + Seq::empty() =~= engine.evicted);
        assert(parallel::instructions(tickets) =~= Seq::empty());
    } else {
        let before = tickets.drop_last();
        waiting_rows_make_no_difference(engine, before);
        assert(parallel::instructions(tickets).drop_last() =~= parallel::instructions(before));
        let last = tickets.last().instruction;
        let mine = sharding_laws::run(engine, parallel::instructions(before));
        let other = sharding_laws::run(taken, parallel::instructions(before));
        assert(mine.apply(last).0.evicted =~= engine.evicted + other.apply(last).0.evicted);
    }
}

/// However the records of a shard are cut into batches, it hands over the same rows and the
/// same rejections, in the same order, as if it had applied them in one go, and at the end it
/// owes what is left of them.
pub proof fn batches_make_no_difference(disputable_withdrawals: bool, batches: Seq<Seq<Ticket>>)
    ensures
        ({
            let new = EngineState::empty(disputable_withdrawals);
            let all = in_a_row(batches);
            let end = sharding_laws::run(new, parallel::instructions(all));
            let (left, sent) = worked(new, batches);
            &&& left == parallel::taken_from(end)
            &&& rows_in(sent) == end.evicted
            &&& rejections_in(sent) == parallel::refusals(new, all)
            &&& rows_in(sent) + left.reported() == end.reported()
        }),
    decreases batches.len(),
{
    let new = EngineState::empty(disputable_withdrawals);
    let all = in_a_row(batches);
    let end = sharding_laws::run(new, parallel::instructions(all));
    let (left, sent) = worked(new, batches);
    if batches.len() == 0 {
        assert(parallel::instructions(all) =~= Seq::empty());
    } else {
        let before = batches.drop_last();
        let batch = batches.last();
        let (held, first) = worked(new, before);
        let middle = sharding_laws::run(new, parallel::instructions(in_a_row(before)));
        let next = sharding_laws::run(held, parallel::instructions(batch));
        batches_make_no_difference(disputable_withdrawals, before);
        asking_in_two_goes(in_a_row(before), batch);
        sharding_laws::running_in_two_goes(
            new,
            parallel::instructions(in_a_row(before)),
            parallel::instructions(batch),
        );
        refusing_in_two_goes(new, in_a_row(before), batch);
        waiting_rows_make_no_difference(middle, batch);
        let refused = parallel::as_rejections(parallel::refusals(held, batch));
        picking_in_two_goes(first, refused);
        picking_in_two_goes(first + refused, parallel::as_notices(next.evicted));
        rejections_are_rejections(parallel::refusals(held, batch));
        rows_are_rows(next.evicted);
        assert(rows_in(sent) =~= end.evicted);
        assert(rejections_in(sent) =~= parallel::refusals(new, all));
    }
    assert(rows_in(sent) + left.reported() =~= end.reported());
}

/// The batches that a series of parcels brings to one shard.
pub open spec fn batches_for(sent: Seq<Load>, shard: int) -> Seq<Seq<Ticket>>
    decreases sent.len(),
{
    if sent.len() == 0 {
        Seq::empty()
    } else if sent.last().shard == shard {
        batches_for(sent.drop_last(), shard).push(sent.last().entries)
    } else {
        batches_for(sent.drop_last(), shard)
    }
}

/// The batches for a shard, one after the other, are what is delivered to it.
proof fn batches_are_what_is_delivered(sent: Seq<Load>, shard: int)
    ensures
        in_a_row(batches_for(sent, shard)) == dispatch::delivered(sent, shard),
    decreases sent.len(),
{
    if sent.len() > 0 {
        batches_are_what_is_delivered(sent.drop_last(), shard);
        if sent.last().shard == shard {
            assert(batches_for(sent, shard).drop_last() =~= batches_for(sent.drop_last(), shard));
        }
    }
}

/// The shard of a client, as routing has it.
pub open spec fn routing(router: Router) -> spec_fn(u16) -> int {
    |client: u16| router.shard_of(client as u32)
}

/// The records for a shard ask for the share of the instructions that belongs to it.
proof fn records_are_shared_by_client(router: Router, tickets: Seq<Ticket>, shard: int)
    ensures
        parallel::instructions(dispatch::entries_for(router, tickets, shard))
            == sharding_laws::share(
            parallel::instructions(tickets),
            sharding_laws::owned_by(routing(router), shard),
        ),
    decreases tickets.len(),
{
    let mine = sharding_laws::owned_by(routing(router), shard);
    let asked = parallel::instructions(tickets);
    if tickets.len() == 0 {
        assert(parallel::instructions(dispatch::entries_for(router, tickets, shard))
            =~= sharding_laws::share(asked, mine));
    } else {
        let before = tickets.drop_last();
        records_are_shared_by_client(router, before, shard);
        assert(asked.drop_last() =~= parallel::instructions(before));
        assert(parallel::instructions(dispatch::entries_for(router, tickets, shard))
            =~= sharding_laws::share(asked, mine));
    }
}

/// Everything that is sent to the shards while the records are read, and at the end.
pub open spec fn all_sent(router: Router, tickets: Seq<Ticket>) -> Seq<Load> {
    let (pending, sent) = dispatch::fed(Pending::nothing(router), tickets);
    sent + pending.close()
}

/// Everything that one shard hands to the writer, up to its shutdown, once all of `sent` has
/// been delivered.
pub open spec fn shard_output(disputable_withdrawals: bool, sent: Seq<Load>, shard: int) -> Seq<
    Notice,
> {
    let (left, notices) = worked(
        EngineState::empty(disputable_withdrawals),
        batches_for(sent, shard),
    );
    notices + parallel::as_notices(left.reported())
}

/// Everything that the first shards hand to the writer, one shard after the other.
pub open spec fn all_output(disputable_withdrawals: bool, sent: Seq<Load>, shards: nat) -> Seq<
    Notice,
>
    decreases shards,
{
    if shards == 0 {
        Seq::empty()
    } else {
        all_output(disputable_withdrawals, sent, (shards - 1) as nat) + shard_output(
            disputable_withdrawals,
            sent,
            shards - 1,
        )
    }
}

/// The lists of the first shards, one shard after the other.
spec fn together(lists: spec_fn(int) -> Seq<Report>, shards: nat) -> Seq<Report>
    decreases shards,
{
    if shards == 0 {
        Seq::empty()
    } else {
        together(lists, (shards - 1) as nat) + lists(shards - 1)
    }
}

/// If the list of one shard gains `more` at its end, all lists together gain it.
proof fn one_list_gains(
    lists: spec_fn(int) -> Seq<Report>,
    longer: spec_fn(int) -> Seq<Report>,
    owner: int,
    more: Seq<Report>,
    shards: nat,
)
    requires
        0 <= owner,
        longer(owner) == lists(owner) + more,
        forall|shard: int| shard != owner ==> #[trigger] longer(shard) == lists(shard),
    ensures
        owner < shards ==> together(longer, shards).to_multiset() == together(
            lists,
            shards,
        ).to_multiset().add(more.to_multiset()),
        owner >= shards ==> together(longer, shards) == together(lists, shards),
    decreases shards,
{
    if shards > 0 {
        let shard = shards - 1;
        let fewer = (shards - 1) as nat;
        let others = together(lists, fewer);
        let longer_others = together(longer, fewer);
        one_list_gains(lists, longer, owner, more, fewer);
        if owner == shard {
            concatenation_adds(others, lists(shard), more);
        } else if owner < shard {
            vstd::seq_lib::lemma_multiset_commutative(longer_others, lists(shard));
            vstd::seq_lib::lemma_multiset_commutative(others, lists(shard));
            assert((longer_others + lists(shard)).to_multiset() =~= (others
                + lists(shard)).to_multiset().add(more.to_multiset()));
        }
    }
}

/// Concatenation adds multisets, in whatever order.
proof fn concatenation_adds(first: Seq<Report>, second: Seq<Report>, third: Seq<Report>)
    ensures
        ((first + second) + third).to_multiset() == (first + third).to_multiset().add(
            second.to_multiset(),
        ),
        (first + (second + third)).to_multiset() == (first + second).to_multiset().add(
            third.to_multiset(),
        ),
{
    vstd::seq_lib::lemma_multiset_commutative(first, second);
    vstd::seq_lib::lemma_multiset_commutative(first, third);
    vstd::seq_lib::lemma_multiset_commutative(second, third);
    vstd::seq_lib::lemma_multiset_commutative(first + second, third);
    vstd::seq_lib::lemma_multiset_commutative(first, second + third);
    assert(((first + second) + third).to_multiset() =~= (first + third).to_multiset().add(
        second.to_multiset(),
    ));
    assert((first + (second + third)).to_multiset() =~= (first + second).to_multiset().add(
        third.to_multiset(),
    ));
}

/// What each shard refuses of its own records.
spec fn refused_by(
    disputable_withdrawals: bool,
    router: Router,
    tickets: Seq<Ticket>,
) -> spec_fn(int) -> Seq<Report> {
    |shard: int|
        parallel::refusals(
            EngineState::empty(disputable_withdrawals),
            dispatch::entries_for(router, tickets, shard),
        )
}

/// What the first shards put out, sorted into rows and rejections.
proof fn the_output_of_the_shards(
    disputable_withdrawals: bool,
    router: Router,
    tickets: Seq<Ticket>,
    shards: nat,
)
    requires
        shards <= router.shard_count(),
    ensures
        ({
            let all = all_output(disputable_withdrawals, all_sent(router, tickets), shards);
            &&& rows_in(all) == sharding_laws::reports(
                disputable_withdrawals,
                parallel::instructions(tickets),
                routing(router),
                shards,
            )
            &&& rejections_in(all) == together(
                refused_by(disputable_withdrawals, router, tickets),
                shards,
            )
        }),
    decreases shards,
{
    if shards > 0 {
        let shard = shards - 1;
        let new = EngineState::empty(disputable_withdrawals);
        let before = all_output(
            disputable_withdrawals,
            all_sent(router, tickets),
            (shards - 1) as nat,
        );
        let batches = batches_for(all_sent(router, tickets), shard);
        let (left, sent) = worked(new, batches);
        the_output_of_the_shards(disputable_withdrawals, router, tickets, (shards - 1) as nat);
        dispatch::every_shard_receives_its_records_in_order(router, tickets, shard);
        batches_are_what_is_delivered(all_sent(router, tickets), shard);
        batches_make_no_difference(disputable_withdrawals, batches);
        records_are_shared_by_client(router, tickets, shard);
        picking_in_two_goes(sent, parallel::as_notices(left.reported()));
        rows_are_rows(left.reported());
        picking_in_two_goes(
            before,
            shard_output(disputable_withdrawals, all_sent(router, tickets), shard),
        );
        assert(rejections_in(
            shard_output(disputable_withdrawals, all_sent(router, tickets), shard),
        ) =~= rejections_in(sent));
    }
}

/// A shard refuses one more of its own records exactly if a single engine that has been given
/// all records does.
proof fn the_owner_refuses_alike(
    disputable_withdrawals: bool,
    router: Router,
    tickets: Seq<Ticket>,
    shard: int,
)
    requires
        tickets.len() > 0,
        forall|i: int|
            0 <= i < tickets.len() ==> account_laws::is_valid((#[trigger] tickets[i]).instruction),
        dispatch::shard_for(router, tickets.last()) == shard,
    ensures
        ({
            let new = EngineState::empty(disputable_withdrawals);
            let before = tickets.drop_last();
            parallel::refusals(new, dispatch::entries_for(router, tickets, shard))
                == parallel::refusals(new, dispatch::entries_for(router, before, shard))
                + parallel::refusal(
                sharding_laws::run(new, parallel::instructions(before)),
                tickets.last(),
            )
        }),
{
    let new = EngineState::empty(disputable_withdrawals);
    let before = tickets.drop_last();
    let last = tickets.last();
    let mine = sharding_laws::owned_by(routing(router), shard);
    let own = dispatch::entries_for(router, tickets, shard);
    let own_before = dispatch::entries_for(router, before, shard);
    let whole = sharding_laws::run(new, parallel::instructions(before));
    let part = sharding_laws::run(new, parallel::instructions(own_before));
    assert(own.drop_last() =~= own_before);
    assert forall|i: int| 0 <= i < parallel::instructions(before).len() implies
        account_laws::is_valid(#[trigger] parallel::instructions(before)[i]) by {
        assert(account_laws::is_valid(tickets[i].instruction));
    }
    sharding_laws::a_part_of_the_work_is_done_alike(
        disputable_withdrawals,
        parallel::instructions(before),
        mine,
    );
    records_are_shared_by_client(router, before, shard);
    sharding_laws::one_step_apart(part, whole, mine, last.instruction);
}

/// All shards together refuse what a single engine refuses.
proof fn all_shards_refuse_alike(
    disputable_withdrawals: bool,
    router: Router,
    tickets: Seq<Ticket>,
)
    requires
        forall|i: int|
            0 <= i < tickets.len() ==> account_laws::is_valid((#[trigger] tickets[i]).instruction),
        router.shard_count() > 0,
    ensures
        together(
            refused_by(disputable_withdrawals, router, tickets),
            router.shard_count() as nat,
        ).to_multiset() == parallel::refusals(
            EngineState::empty(disputable_withdrawals),
            tickets,
        ).to_multiset(),
    decreases tickets.len(),
{
    let new = EngineState::empty(disputable_withdrawals);
    let shards = router.shard_count() as nat;
    if tickets.len() == 0 {
        nothing_to_refuse(disputable_withdrawals, router, tickets, shards);
    } else {
        let last = tickets.last();
        let before = tickets.drop_last();
        let more = parallel::refusal(
            sharding_laws::run(new, parallel::instructions(before)),
            last,
        );
        let lists = refused_by(disputable_withdrawals, router, before);
        let longer = refused_by(disputable_withdrawals, router, tickets);
        let owner = dispatch::shard_for(router, last);
        all_shards_refuse_alike(disputable_withdrawals, router, before);
        route::reduction_is_uniform(
            route::mixed(last.instruction.client() as u32, router.seed()),
            router.shard_count(),
        );
        the_owner_refuses_alike(disputable_withdrawals, router, tickets, owner);
        one_list_gains(lists, longer, owner, more, shards);
        vstd::seq_lib::lemma_multiset_commutative(parallel::refusals(new, before), more);
    }
}

/// Without records there are no refusals.
proof fn nothing_to_refuse(
    disputable_withdrawals: bool,
    router: Router,
    tickets: Seq<Ticket>,
    shards: nat,
)
    requires
        tickets.len() == 0,
    ensures
        together(refused_by(disputable_withdrawals, router, tickets), shards) == Seq::<
            Report,
        >::empty(),
    decreases shards,
{
    if shards > 0 {
        nothing_to_refuse(disputable_withdrawals, router, tickets, (shards - 1) as nat);
        assert(dispatch::entries_for(router, tickets, shards - 1).len() == 0);
        assert(together(refused_by(disputable_withdrawals, router, tickets), shards)
            =~= Seq::empty());
    }
}

/// The number of shards never changes what is put out: through staging, routing, batching and
/// early eviction, all shards together hand the writer exactly the rows that a single engine
/// reports when it is given the same records in input order, and exactly the rejections that
/// it makes, each as often and word for word.
pub proof fn the_sharded_pipeline_does_what_one_engine_does(
    disputable_withdrawals: bool,
    router: Router,
    tickets: Seq<Ticket>,
)
    requires
        forall|i: int|
            0 <= i < tickets.len() ==> account_laws::is_valid((#[trigger] tickets[i]).instruction),
        router.shard_count() > 0,
    ensures
        ({
            let new = EngineState::empty(disputable_withdrawals);
            let all = all_output(
                disputable_withdrawals,
                all_sent(router, tickets),
                router.shard_count() as nat,
            );
            &&& rows_in(all).to_multiset() == sharding_laws::run(
                new,
                parallel::instructions(tickets),
            ).reported().to_multiset()
            &&& rejections_in(all).to_multiset() == parallel::refusals(new, tickets).to_multiset()
        }),
{
    let shards = router.shard_count() as nat;
    let asked = parallel::instructions(tickets);
    assert forall|i: int| 0 <= i < asked.len() implies account_laws::is_valid(
        #[trigger] asked[i],
    ) by {
        assert(account_laws::is_valid(tickets[i].instruction));
    }
    assert forall|client: u16| 0 <= #[trigger] routing(router)(client) < shards by {
        route::reduction_is_uniform(
            route::mixed(client as u32, router.seed()),
            router.shard_count(),
        );
    }
    the_output_of_the_shards(disputable_withdrawals, router, tickets, shards);
    sharding_laws::sharding_never_changes_the_result(
        disputable_withdrawals,
        asked,
        routing(router),
        shards,
    );
    all_shards_refuse_alike(disputable_withdrawals, router, tickets);
}

/// What the stream gives up to its end: the records for the shards, and those rejected on
/// sight.
pub struct Sorted {
    pub tickets: Seq<Ticket>,
    pub rejected: Seq<Report>,
    pub ended: bool,
}

/// Sorts what the stream gives.
pub open spec fn sorted(fetches: Seq<Fetched>) -> Sorted
    decreases fetches.len(),
{
    if fetches.len() == 0 {
        Sorted { tickets: Seq::empty(), rejected: Seq::empty(), ended: false }
    } else {
        let before = sorted(fetches.drop_last());
        if before.ended {
            before
        } else {
            match pipeline::read(fetches.last()) {
                Ok(Some(Item::Ready(ticket))) => Sorted {
                    tickets: before.tickets.push(ticket),
                    ..before
                },
                Ok(Some(Item::Rejected { line, tx, rejection })) => Sorted {
                    rejected: before.rejected.push(Report::of(line, tx, rejection)),
                    ..before
                },
                _ => Sorted { ended: true, ..before },
            }
        }
    }
}

/// What reaches the shards is valid.
proof fn sorted_tickets_are_valid(fetches: Seq<Fetched>)
    ensures
        forall|i: int|
            0 <= i < sorted(fetches).tickets.len() ==> account_laws::is_valid(
                (#[trigger] sorted(fetches).tickets[i]).instruction,
            ),
    decreases fetches.len(),
{
    if fetches.len() > 0 {
        let before = sorted(fetches.drop_last());
        let after = sorted(fetches);
        sorted_tickets_are_valid(fetches.drop_last());
        if let Fetched::Record { line, raw: Ok(raw) } = fetches.last() {
            record::a_transaction_is_well_formed(
                raw.kind@,
                raw.client,
                raw.tx,
                record::text_in(raw.amount),
            );
        }
        assert forall|i: int| 0 <= i < after.tickets.len() implies account_laws::is_valid(
            (#[trigger] after.tickets[i]).instruction,
        ) by {
            if i < before.tickets.len() {
                assert(after.tickets[i] == before.tickets[i]);
            }
        }
    }
}

/// A run with one engine comes to what the engine makes of the records for it, and reports
/// those rejected on sight together with those that the engine refuses.
proof fn a_single_run_in_parts(engine: EngineState, fetches: Seq<Fetched>)
    ensures
        ({
            let run = pipeline::progress(engine, fetches);
            let parts = sorted(fetches);
            &&& run.engine == sharding_laws::run(engine, parallel::instructions(parts.tickets))
            &&& run.ended is Some == parts.ended
            &&& run.reported.to_multiset() == parts.rejected.to_multiset().add(
                parallel::refusals(engine, parts.tickets).to_multiset(),
            )
        }),
    decreases fetches.len(),
{
    let run = pipeline::progress(engine, fetches);
    let parts = sorted(fetches);
    if fetches.len() == 0 {
        let none = Seq::<Report>::empty();
        assert(parallel::instructions(parts.tickets) =~= Seq::empty());
        none.to_multiset_ensures();
        assert(none.to_multiset() =~= none.to_multiset().add(none.to_multiset()));
    } else {
        let before = pipeline::progress(engine, fetches.drop_last());
        let first = sorted(fetches.drop_last());
        let refused = parallel::refusals(engine, first.tickets);
        a_single_run_in_parts(engine, fetches.drop_last());
        vstd::seq_lib::lemma_multiset_commutative(first.rejected, refused);
        if !first.ended {
            match pipeline::read(fetches.last()) {
                Ok(Some(Item::Ready(ticket))) => {
                    let more = parallel::refusal(before.engine, ticket);
                    assert(parts.tickets.drop_last() =~= first.tickets);
                    assert(parallel::instructions(parts.tickets).drop_last()
                        =~= parallel::instructions(first.tickets));
                    assert(parallel::instructions(parts.tickets).last() == ticket.instruction);
                    assert(run.reported =~= before.reported + more);
                    vstd::seq_lib::lemma_multiset_commutative(before.reported, more);
                    vstd::seq_lib::lemma_multiset_commutative(first.rejected, refused + more);
                    concatenation_adds(first.rejected, refused, more);
                },
                Ok(Some(Item::Rejected { line, tx, rejection })) => {
                    let more = seq![Report::of(line, tx, rejection)];
                    assert(run.reported =~= before.reported + more);
                    assert(parts.rejected =~= first.rejected + more);
                    vstd::seq_lib::lemma_multiset_commutative(before.reported, more);
                    vstd::seq_lib::lemma_multiset_commutative(parts.rejected, refused);
                    concatenation_adds(first.rejected, more, refused);
                },
                _ => {},
            }
        }
    }
}

/// What the reading end makes of a series of records from the stream.
pub open spec fn gathered(router: Router, fetches: Seq<Fetched>) -> Step
    decreases fetches.len(),
{
    if fetches.len() == 0 {
        Step {
            pending: Pending::nothing(router),
            sent: Seq::empty(),
            noted: Seq::empty(),
            finished: false,
        }
    } else {
        let before = gathered(router, fetches.drop_last());
        if before.finished {
            before
        } else {
            let step = parallel::taken_in(before.pending, fetches.last());
            Step { sent: before.sent + step.sent, noted: before.noted + step.noted, ..step }
        }
    }
}

/// The reading end reports what is rejected on sight and stages the rest.
proof fn the_reading_end_sorts(router: Router, fetches: Seq<Fetched>)
    ensures
        ({
            let step = gathered(router, fetches);
            let parts = sorted(fetches);
            &&& (step.pending, step.sent) == dispatch::fed(Pending::nothing(router), parts.tickets)
            &&& step.noted == parts.rejected
            &&& step.finished == parts.ended
        }),
    decreases fetches.len(),
{
    if fetches.len() > 0 {
        let before = gathered(router, fetches.drop_last());
        let first = sorted(fetches.drop_last());
        let step = gathered(router, fetches);
        let parts = sorted(fetches);
        the_reading_end_sorts(router, fetches.drop_last());
        if !first.ended {
            assert(before.sent + Seq::empty() =~= before.sent);
            assert(before.noted + Seq::empty() =~= before.noted);
            match pipeline::read(fetches.last()) {
                Ok(Some(Item::Ready(ticket))) => {
                    assert(parts.tickets.drop_last() =~= first.tickets);
                },
                Ok(Some(Item::Rejected { line, tx, rejection })) => {
                    assert(step.noted =~= parts.rejected);
                },
                _ => {},
            }
        }
    }
}

/// Sharding is the same work spread over several engines: whatever the stream gives, and
/// however many shards there are, the reading end and the shards together hand the writer
/// exactly the rows that a run with a single engine comes to, and report exactly the records
/// that it reports, each as often and word for word.
pub proof fn sharding_is_the_same_work(
    disputable_withdrawals: bool,
    router: Router,
    fetches: Seq<Fetched>,
)
    requires
        router.shard_count() > 0,
    ensures
        ({
            let run = pipeline::progress(EngineState::empty(disputable_withdrawals), fetches);
            let read = gathered(router, fetches);
            let shards = all_output(
                disputable_withdrawals,
                read.sent + read.pending.close(),
                router.shard_count() as nat,
            );
            &&& rows_in(shards).to_multiset() == run.engine.reported().to_multiset()
            &&& (read.noted + rejections_in(shards)).to_multiset() == run.reported.to_multiset()
        }),
{
    let new = EngineState::empty(disputable_withdrawals);
    let parts = sorted(fetches);
    let read = gathered(router, fetches);
    let shards = all_output(
        disputable_withdrawals,
        read.sent + read.pending.close(),
        router.shard_count() as nat,
    );
    the_reading_end_sorts(router, fetches);
    sorted_tickets_are_valid(fetches);
    a_single_run_in_parts(new, fetches);
    the_sharded_pipeline_does_what_one_engine_does(disputable_withdrawals, router, parts.tickets);
    vstd::seq_lib::lemma_multiset_commutative(read.noted, rejections_in(shards));
}

/// What a series of lines puts on standard output.
pub open spec fn on_stdout(lines: Seq<Line>) -> Seq<char>
    decreases lines.len(),
{
    if lines.len() == 0 {
        Seq::empty()
    } else {
        match lines.last() {
            Line::Stdout(text) => on_stdout(lines.drop_last()) + text,
            Line::Stderr(_) => on_stdout(lines.drop_last()),
        }
    }
}

/// What a series of lines puts on standard error.
pub open spec fn on_stderr(lines: Seq<Line>) -> Seq<char>
    decreases lines.len(),
{
    if lines.len() == 0 {
        Seq::empty()
    } else {
        match lines.last() {
            Line::Stdout(_) => on_stderr(lines.drop_last()),
            Line::Stderr(text) => on_stderr(lines.drop_last()) + text,
        }
    }
}

/// The two streams never mix: whatever order the messages come in, standard output holds the
/// rows and nothing else, one line each, and standard error the rejected records, one line
/// each.
pub proof fn the_streams_never_mix(notices: Seq<Notice>)
    ensures
        ({
            let lines = notices.map_values(|notice: Notice| parallel::line_for(notice));
            &&& on_stdout(lines) == output::row_lines(rows_in(notices))
            &&& on_stderr(lines) == pipeline::report_lines(rejections_in(notices))
            &&& rows_in(notices).len() + rejections_in(notices).len() == notices.len()
        }),
    decreases notices.len(),
{
    let lines = notices.map_values(|notice: Notice| parallel::line_for(notice));
    if notices.len() > 0 {
        let before = notices.drop_last();
        let first = before.map_values(|notice: Notice| parallel::line_for(notice));
        the_streams_never_mix(before);
        assert(lines.drop_last() =~= first);
        match notices.last() {
            Notice::Row(row) => {
                assert(rows_in(notices).drop_last() =~= rows_in(before));
            },
            Notice::Rejected(report) => {
                assert(rejections_in(notices).drop_last() =~= rejections_in(before));
            },
        }
    }
}

} // verus!
