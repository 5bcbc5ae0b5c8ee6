//! Why the work can be shared out by client: what an engine makes of a client does not depend
//! on which other clients it serves.

use crate::account::Row;
use crate::account_laws;
use crate::engine;
use crate::engine::EngineState;
use crate::engine_laws;
use crate::error::Rejection;
use crate::record::Instruction;
use vstd::prelude::*;

verus! {

/// The engine after a series of instructions.
pub open spec fn run(engine: EngineState, instructions: Seq<Instruction>) -> EngineState
    decreases instructions.len(),
{
    if instructions.len() == 0 {
        engine
    } else {
        run(engine, instructions.drop_last()).apply(instructions.last()).0
    }
}

/// Instructions in two goes leave the engine that they leave in one.
pub proof fn running_in_two_goes(
    engine: EngineState,
    first: Seq<Instruction>,
    second: Seq<Instruction>,
)
    ensures
        run(engine, first + second) == run(run(engine, first), second),
    decreases second.len(),
{
    let both = first + second;
    if second.len() == 0 {
        assert(both =~= first);
    } else {
        let before = second.drop_last();
        running_in_two_goes(engine, first, before);
        assert(both.drop_last() =~= first + before);
        assert(both.last() == second.last());
        let middle = run(engine, both.drop_last());
        assert(middle == run(run(engine, first), before));
        assert(run(engine, both) == middle.apply(second.last()).0);
        assert(run(run(engine, first), second) == middle.apply(second.last()).0);
    }
}

/// The instructions that belong to the clients in `mine`, in their order.
pub open spec fn share(instructions: Seq<Instruction>, mine: spec_fn(u16) -> bool) -> Seq<
    Instruction,
>
    decreases instructions.len(),
{
    if instructions.len() == 0 {
        Seq::empty()
    } else if mine(instructions.last().client()) {
        share(instructions.drop_last(), mine).push(instructions.last())
    } else {
        share(instructions.drop_last(), mine)
    }
}

/// The answers that an engine gives to the instructions of the clients in `mine`, while it is
/// given all of `instructions`.
pub open spec fn answers(
    engine: EngineState,
    instructions: Seq<Instruction>,
    mine: spec_fn(u16) -> bool,
) -> Seq<Result<(), Rejection>>
    decreases instructions.len(),
{
    if instructions.len() == 0 {
        Seq::empty()
    } else {
        let before = answers(engine, instructions.drop_last(), mine);
        if mine(instructions.last().client()) {
            before.push(run(engine, instructions.drop_last()).apply(instructions.last()).1)
        } else {
            before
        }
    }
}

/// The rows of the clients in `mine`, in their order.
pub open spec fn rows_of(rows: Seq<Row>, mine: spec_fn(u16) -> bool) -> Seq<Row>
    decreases rows.len(),
{
    if rows.len() == 0 {
        Seq::empty()
    } else if mine(rows.last().client) {
        rows_of(rows.drop_last(), mine).push(rows.last())
    } else {
        rows_of(rows.drop_last(), mine)
    }
}

/// `part` knows of the clients in `mine` exactly what `whole` knows of them, and of no other.
pub open spec fn is_part_of(
    part: EngineState,
    whole: EngineState,
    mine: spec_fn(u16) -> bool,
) -> bool {
    &&& part.disputable_withdrawals == whole.disputable_withdrawals
    &&& forall|client: u16| #[trigger]
        part.accounts.contains_key(client) <==> mine(client) && whole.accounts.contains_key(client)
    &&& forall|client: u16| #[trigger]
        part.accounts.contains_key(client) ==> part.accounts[client] == whole.accounts[client]
    &&& forall|client: u16| #[trigger]
        part.frozen.contains(client) <==> mine(client) && whole.frozen.contains(client)
    &&& part.evicted == rows_of(whole.evicted, mine)
}

/// One more instruction of the clients in `mine` is answered alike by the part and the whole,
/// and changes them alike. One of another client does not concern the part.
pub proof fn one_step_apart(
    part: EngineState,
    whole: EngineState,
    mine: spec_fn(u16) -> bool,
    instruction: Instruction,
)
    requires
        is_part_of(part, whole, mine),
        engine_laws::valid(whole),
    ensures
        mine(instruction.client()) ==> is_part_of(
            part.apply(instruction).0,
            whole.apply(instruction).0,
            mine,
        ),
        mine(instruction.client()) ==> part.apply(instruction).1 == whole.apply(instruction).1,
        !mine(instruction.client()) ==> is_part_of(part, whole.apply(instruction).0, mine),
{
    let client = instruction.client();
    let next = whole.apply(instruction).0;
    assert(part.accounts.contains_key(client) <==> mine(client) && whole.accounts.contains_key(
        client,
    ));
    assert(part.frozen.contains(client) <==> mine(client) && whole.frozen.contains(client));
    if next.evicted.len() > whole.evicted.len() {
        assert(next.evicted.drop_last() =~= whole.evicted);
        assert(next.evicted.last().client == client);
    }
}

/// Whatever the instructions, an engine that is given only those of the clients in `mine` ends
/// up with exactly what an engine that is given all of them has for those clients: the same
/// accounts, the same clients frozen, the same rows evicted in the same order, and it has given
/// the same answers.
pub proof fn a_part_of_the_work_is_done_alike(
    disputable_withdrawals: bool,
    instructions: Seq<Instruction>,
    mine: spec_fn(u16) -> bool,
)
    requires
        forall|i: int|
            0 <= i < instructions.len() ==> account_laws::is_valid(#[trigger] instructions[i]),
    ensures
        ({
            let new = EngineState::empty(disputable_withdrawals);
            let everyone = |client: u16| true;
            &&& is_part_of(run(new, share(instructions, mine)), run(new, instructions), mine)
            &&& answers(new, share(instructions, mine), everyone) == answers(
                new,
                instructions,
                mine,
            )
            &&& engine_laws::valid(run(new, instructions))
        }),
    decreases instructions.len(),
{
    let new = EngineState::empty(disputable_withdrawals);
    if instructions.len() == 0 {
        engine_laws::a_new_engine_is_valid(disputable_withdrawals);
    } else {
        let before = instructions.drop_last();
        let last = instructions.last();
        a_part_of_the_work_is_done_alike(disputable_withdrawals, before, mine);
        engine_laws::every_engine_stays_valid(run(new, before), last);
        one_step_apart(run(new, share(before, mine)), run(new, before), mine, last);
        if mine(last.client()) {
            assert(share(instructions, mine).drop_last() =~= share(before, mine));
        }
    }
}

/// The rows that an engine owes report each client once: those with an open account as they
/// are, and those evicted.
pub proof fn every_client_is_reported_once(engine: EngineState)
    requires
        engine_laws::valid(engine),
    ensures
        engine_laws::one_row_each(engine.reported()),
        forall|row: Row| #[trigger]
            engine.reported().contains(row) <==> engine.evicted.contains(row) || (
            engine.accounts.contains_key(row.client) && row == engine.accounts[row.client].row(
                false,
            )),
{
    let rows = engine.reported();
    let evicted = engine.evicted;
    let open = engine.open_rows();
    let clients = engine.clients();
    engine::clients_are_listed_in_order(engine.accounts.dom(), engine::CLIENTS as nat);
    assert forall|i: int| 0 <= i < open.len() implies (#[trigger] open[i]).client == clients[i]
        && engine.accounts.contains_key(clients[i]) by {
        assert(clients.contains(clients[i]));
    }
    assert forall|i: int, j: int| 0 <= i < j < rows.len() implies (#[trigger] rows[i]).client != (
    #[trigger] rows[j]).client by {
        if j >= evicted.len() {
            assert(rows[j] == open[j - evicted.len()]);
            if i >= evicted.len() {
                assert(rows[i] == open[i - evicted.len()]);
                assert(clients[i - evicted.len()] < clients[j - evicted.len()]);
            } else {
                assert(rows[i] == evicted[i]);
            }
        } else {
            assert(rows[i] == evicted[i] && rows[j] == evicted[j]);
        }
    }
    assert forall|row: Row| #[trigger] rows.contains(row) implies evicted.contains(row) || (
    engine.accounts.contains_key(row.client) && row == engine.accounts[row.client].row(false)) by {
        let i = choose|i: int| 0 <= i < rows.len() && rows[i] == row;
        if i < evicted.len() {
            assert(evicted[i] == row);
        } else {
            assert(open[i - evicted.len()] == row);
        }
    }
    assert forall|row: Row|
        evicted.contains(row) || (engine.accounts.contains_key(row.client) && row
            == engine.accounts[row.client].row(false)) implies #[trigger] rows.contains(row) by {
        if evicted.contains(row) {
            let i = choose|i: int| 0 <= i < evicted.len() && evicted[i] == row;
            assert(rows[i] == row);
        } else {
            assert(clients.contains(row.client));
            let i = choose|i: int| 0 <= i < clients.len() && clients[i] == row.client;
            assert(open[i] == row);
            assert(rows[evicted.len() + i] == row);
        }
    }
}

/// `rows_of` picks the rows of the clients in `mine` and no other.
proof fn rows_are_picked_by_client(rows: Seq<Row>, mine: spec_fn(u16) -> bool)
    ensures
        forall|row: Row| #[trigger]
            rows_of(rows, mine).contains(row) <==> rows.contains(row) && mine(row.client),
    decreases rows.len(),
{
    if rows.len() > 0 {
        let before = rows.drop_last();
        let picked = rows_of(rows, mine);
        rows_are_picked_by_client(before, mine);
        assert forall|row: Row|
            #![trigger rows.contains(row)]
            rows.contains(row) <==> before.contains(row) || row == rows.last() by {
            assert(before.push(rows.last()) =~= rows);
            if before.contains(row) {
                let i = choose|i: int| 0 <= i < before.len() && before[i] == row;
                assert(rows[i] == row);
            }
            if row == rows.last() {
                assert(rows[rows.len() - 1] == row);
            }
        }
        if mine(rows.last().client) {
            let shorter = rows_of(before, mine);
            assert forall|row: Row|
                #![trigger picked.contains(row)]
                picked.contains(row) <==> shorter.contains(row) || row == rows.last() by {
                if shorter.contains(row) {
                    let i = choose|i: int| 0 <= i < shorter.len() && shorter[i] == row;
                    assert(picked[i] == row);
                }
                if row == rows.last() {
                    assert(picked[picked.len() - 1] == row);
                }
            }
        }
        assert forall|row: Row| #[trigger]
            picked.contains(row) <==> rows.contains(row) && mine(row.client) by {
            assert(rows_of(before, mine).contains(row) <==> before.contains(row) && mine(
                row.client,
            ));
            assert(rows.contains(row) <==> before.contains(row) || row == rows.last());
        }
    }
}

/// The clients that belong to one shard.
pub open spec fn owned_by(shard_of: spec_fn(u16) -> int, shard: int) -> spec_fn(u16) -> bool {
    |client: u16| shard_of(client) == shard
}

/// What one shard reports once it has been given the instructions of its clients.
pub open spec fn shard_report(
    disputable_withdrawals: bool,
    instructions: Seq<Instruction>,
    shard_of: spec_fn(u16) -> int,
    shard: int,
) -> Seq<Row> {
    run(
        EngineState::empty(disputable_withdrawals),
        share(instructions, owned_by(shard_of, shard)),
    ).reported()
}

/// What the first shards report together, one shard after the other.
pub open spec fn reports(
    disputable_withdrawals: bool,
    instructions: Seq<Instruction>,
    shard_of: spec_fn(u16) -> int,
    shards: nat,
) -> Seq<Row>
    decreases shards,
{
    if shards == 0 {
        Seq::empty()
    } else {
        reports(disputable_withdrawals, instructions, shard_of, (shards - 1) as nat)
            + shard_report(disputable_withdrawals, instructions, shard_of, shards - 1)
    }
}

/// A shard reports of its clients what a single engine reports of them.
proof fn a_shard_reports_its_own(
    disputable_withdrawals: bool,
    instructions: Seq<Instruction>,
    shard_of: spec_fn(u16) -> int,
    shard: int,
)
    requires
        forall|i: int|
            0 <= i < instructions.len() ==> account_laws::is_valid(#[trigger] instructions[i]),
    ensures
        ({
            let own = shard_report(disputable_withdrawals, instructions, shard_of, shard);
            let all = run(EngineState::empty(disputable_withdrawals), instructions).reported();
            &&& engine_laws::one_row_each(own)
            &&& forall|row: Row| #[trigger]
                own.contains(row) <==> all.contains(row) && shard_of(row.client) == shard
        }),
{
    let new = EngineState::empty(disputable_withdrawals);
    let mine = owned_by(shard_of, shard);
    let part = run(new, share(instructions, mine));
    let whole = run(new, instructions);
    a_part_of_the_work_is_done_alike(disputable_withdrawals, instructions, mine);
    a_share_is_valid(instructions, mine);
    a_part_of_the_work_is_done_alike(
        disputable_withdrawals,
        share(instructions, mine),
        |client: u16| true,
    );
    every_client_is_reported_once(part);
    every_client_is_reported_once(whole);
    rows_are_picked_by_client(whole.evicted, mine);
    assert forall|row: Row| #[trigger]
        part.reported().contains(row) <==> whole.reported().contains(row) && shard_of(row.client)
            == shard by {
        assert(rows_of(whole.evicted, mine).contains(row) <==> whole.evicted.contains(row) && mine(
            row.client,
        ));
        assert(part.accounts.contains_key(row.client) <==> mine(row.client)
            && whole.accounts.contains_key(row.client));
        assert(whole.reported().contains(row) <==> whole.evicted.contains(row) || (
        whole.accounts.contains_key(row.client) && row == whole.accounts[row.client].row(false)));
    }
}

/// A share of valid instructions consists of valid instructions.
proof fn a_share_is_valid(instructions: Seq<Instruction>, mine: spec_fn(u16) -> bool)
    requires
        forall|i: int|
            0 <= i < instructions.len() ==> account_laws::is_valid(#[trigger] instructions[i]),
    ensures
        forall|i: int|
            0 <= i < share(instructions, mine).len() ==> account_laws::is_valid(
                #[trigger] share(instructions, mine)[i],
            ),
    decreases instructions.len(),
{
    if instructions.len() > 0 {
        let before = share(instructions.drop_last(), mine);
        a_share_is_valid(instructions.drop_last(), mine);
        assert(account_laws::is_valid(instructions[instructions.len() - 1]));
        assert forall|i: int|
            0 <= i < share(instructions, mine).len() implies account_laws::is_valid(
            #[trigger] share(instructions, mine)[i],
        ) by {
            if i < before.len() {
                assert(share(instructions, mine)[i] == before[i]);
            }
        }
    }
}

/// The first shards together report what a single engine reports of their clients.
proof fn the_first_shards_report_their_own(
    disputable_withdrawals: bool,
    instructions: Seq<Instruction>,
    shard_of: spec_fn(u16) -> int,
    shards: nat,
)
    requires
        forall|i: int|
            0 <= i < instructions.len() ==> account_laws::is_valid(#[trigger] instructions[i]),
        forall|client: u16| 0 <= #[trigger] shard_of(client),
    ensures
        ({
            let together = reports(disputable_withdrawals, instructions, shard_of, shards);
            let all = run(EngineState::empty(disputable_withdrawals), instructions).reported();
            &&& engine_laws::one_row_each(together)
            &&& forall|row: Row| #[trigger]
                together.contains(row) <==> all.contains(row) && shard_of(row.client) < shards
        }),
    decreases shards,
{
    if shards > 0 {
        let fewer = (shards - 1) as nat;
        let before = reports(disputable_withdrawals, instructions, shard_of, fewer);
        let own = shard_report(disputable_withdrawals, instructions, shard_of, shards - 1);
        let together = reports(disputable_withdrawals, instructions, shard_of, shards);
        let all = run(EngineState::empty(disputable_withdrawals), instructions).reported();
        the_first_shards_report_their_own(disputable_withdrawals, instructions, shard_of, fewer);
        a_shard_reports_its_own(disputable_withdrawals, instructions, shard_of, shards - 1);
        assert forall|i: int, j: int| 0 <= i < j < together.len() implies (
        #[trigger] together[i]).client != (#[trigger] together[j]).client by {
            if i < before.len() && j >= before.len() {
                assert(before.contains(together[i]));
                assert(own[j - before.len()] == together[j]);
                assert(own.contains(together[j]));
            } else if i >= before.len() {
                assert(own[i - before.len()] == together[i]);
                assert(own[j - before.len()] == together[j]);
            } else {
                assert(before[i] == together[i] && before[j] == together[j]);
            }
        }
        assert forall|row: Row| #[trigger]
            together.contains(row) <==> all.contains(row) && shard_of(row.client) < shards by {
            assert(together.contains(row) <==> before.contains(row) || own.contains(row)) by {
                if together.contains(row) {
                    let i = choose|i: int| 0 <= i < together.len() && together[i] == row;
                    if i < before.len() {
                        assert(before[i] == row);
                    } else {
                        assert(own[i - before.len()] == row);
                    }
                }
                if before.contains(row) {
                    let i = choose|i: int| 0 <= i < before.len() && before[i] == row;
                    assert(together[i] == row);
                }
                if own.contains(row) {
                    let i = choose|i: int| 0 <= i < own.len() && own[i] == row;
                    assert(together[before.len() + i] == row);
                }
            }
            assert(before.contains(row) <==> all.contains(row) && shard_of(row.client) < fewer);
            assert(own.contains(row) <==> all.contains(row) && shard_of(row.client) == shards - 1);
        }
    }
}

/// The number of shards never changes the result: however the clients are shared out, the
/// shards together report exactly the rows that a single engine reports for the same
/// instructions, each as often.
pub proof fn sharding_never_changes_the_result(
    disputable_withdrawals: bool,
    instructions: Seq<Instruction>,
    shard_of: spec_fn(u16) -> int,
    shards: nat,
)
    requires
        forall|i: int|
            0 <= i < instructions.len() ==> account_laws::is_valid(#[trigger] instructions[i]),
        forall|client: u16| 0 <= #[trigger] shard_of(client) < shards,
    ensures
        reports(disputable_withdrawals, instructions, shard_of, shards).to_multiset() == run(
            EngineState::empty(disputable_withdrawals),
            instructions,
        ).reported().to_multiset(),
{
    let together = reports(disputable_withdrawals, instructions, shard_of, shards);
    let whole = run(EngineState::empty(disputable_withdrawals), instructions);
    let all = whole.reported();
    the_first_shards_report_their_own(disputable_withdrawals, instructions, shard_of, shards);
    a_part_of_the_work_is_done_alike(disputable_withdrawals, instructions, |client: u16| true);
    every_client_is_reported_once(whole);
    assert(together.no_duplicates());
    assert(all.no_duplicates());
    together.lemma_multiset_has_no_duplicates();
    all.lemma_multiset_has_no_duplicates();
    together.to_multiset_ensures();
    all.to_multiset_ensures();
    assert forall|row: Row|
        #![trigger together.to_multiset().count(row)]
        together.to_multiset().count(row) == all.to_multiset().count(row) by {
        assert(together.contains(row) <==> all.contains(row));
        assert(together.contains(row) <==> together.to_multiset().count(row) > 0);
        assert(all.contains(row) <==> all.to_multiset().count(row) > 0);
    }
    assert(together.to_multiset() =~= all.to_multiset());
}

/// A deposit or a withdrawal of the client is among the instructions.
pub open spec fn has_moved_money(instructions: Seq<Instruction>, client: u16) -> bool {
    exists|i: int|
        0 <= i < instructions.len() && (#[trigger] instructions[i]).client() == client && (
        instructions[i] is Deposit || instructions[i] is Withdrawal)
}

/// A row reports the client.
pub open spec fn is_in(rows: Seq<Row>, client: u16) -> bool {
    exists|i: int| 0 <= i < rows.len() && (#[trigger] rows[i]).client == client
}

/// An engine knows exactly the clients that have sent a deposit or a withdrawal, and the
/// clients frozen are those whose rows have been evicted.
proof fn clients_are_known_by_their_money(
    disputable_withdrawals: bool,
    instructions: Seq<Instruction>,
    client: u16,
)
    requires
        forall|i: int|
            0 <= i < instructions.len() ==> account_laws::is_valid(#[trigger] instructions[i]),
    ensures
        ({
            let end = run(EngineState::empty(disputable_withdrawals), instructions);
            &&& has_moved_money(instructions, client) <==> end.accounts.contains_key(client)
                || end.frozen.contains(client)
            &&& end.frozen.contains(client) <==> is_in(end.evicted, client)
        }),
    decreases instructions.len(),
{
    let new = EngineState::empty(disputable_withdrawals);
    if instructions.len() > 0 {
        let before = instructions.drop_last();
        let last = instructions.last();
        let middle = run(new, before);
        let end = run(new, instructions);
        clients_are_known_by_their_money(disputable_withdrawals, before, client);
        a_part_of_the_work_is_done_alike(disputable_withdrawals, before, |c: u16| true);
        if has_moved_money(before, client) {
            let i = choose|i: int|
                0 <= i < before.len() && (#[trigger] before[i]).client() == client && (
                before[i] is Deposit || before[i] is Withdrawal);
            assert(instructions[i] == before[i]);
        }
        if has_moved_money(instructions, client) && !has_moved_money(before, client) {
            let i = choose|i: int|
                0 <= i < instructions.len() && (#[trigger] instructions[i]).client() == client && (
                instructions[i] is Deposit || instructions[i] is Withdrawal);
            if i < before.len() {
                assert(before[i] == instructions[i]);
            }
            assert(instructions[i] == last);
        }
        if last.client() == client && (last is Deposit || last is Withdrawal) {
            assert(instructions[instructions.len() - 1] == last);
        }
        if is_in(middle.evicted, client) {
            let i = choose|i: int|
                0 <= i < middle.evicted.len() && (#[trigger] middle.evicted[i]).client == client;
            assert(end.evicted[i] == middle.evicted[i]);
        }
        if end.evicted.len() > middle.evicted.len() {
            assert(end.evicted[end.evicted.len() - 1].client == last.client());
        }
        if is_in(end.evicted, client) && !is_in(middle.evicted, client) {
            let i = choose|i: int|
                0 <= i < end.evicted.len() && (#[trigger] end.evicted[i]).client == client;
            if i < middle.evicted.len() {
                assert(middle.evicted[i] == end.evicted[i]);
            }
        }
    }
}

/// A client is reported, and then exactly once, if it has ever sent a deposit or a withdrawal,
/// and not otherwise. The row says that it is locked exactly if the client is frozen.
pub proof fn who_is_reported(
    disputable_withdrawals: bool,
    instructions: Seq<Instruction>,
    client: u16,
)
    requires
        forall|i: int|
            0 <= i < instructions.len() ==> account_laws::is_valid(#[trigger] instructions[i]),
    ensures
        ({
            let end = run(EngineState::empty(disputable_withdrawals), instructions);
            &&& is_in(end.reported(), client) <==> has_moved_money(instructions, client)
            &&& engine_laws::one_row_each(end.reported())
            &&& forall|i: int|
                0 <= i < end.reported().len() && (#[trigger] end.reported()[i]).client == client
                    ==> end.reported()[i].locked == end.frozen.contains(client)
        }),
{
    let end = run(EngineState::empty(disputable_withdrawals), instructions);
    let rows = end.reported();
    clients_are_known_by_their_money(disputable_withdrawals, instructions, client);
    a_part_of_the_work_is_done_alike(disputable_withdrawals, instructions, |c: u16| true);
    every_client_is_reported_once(end);
    assert forall|i: int| 0 <= i < rows.len() && (#[trigger] rows[i]).client == client implies (
    end.accounts.contains_key(client) || end.frozen.contains(client)) && rows[i].locked
        == end.frozen.contains(client) by {
        assert(rows.contains(rows[i]));
        if end.evicted.contains(rows[i]) {
            let j = choose|j: int| 0 <= j < end.evicted.len() && end.evicted[j] == rows[i];
            assert(end.evicted[j].locked);
        }
    }
    if end.accounts.contains_key(client) {
        assert(rows.contains(end.accounts[client].row(false)));
    }
    if end.frozen.contains(client) {
        let j = choose|j: int|
            0 <= j < end.evicted.len() && (#[trigger] end.evicted[j]).client == client;
        assert(rows[j] == end.evicted[j]);
    }
}

} // verus!
