//! Activation transactions: an idempotent beginning and a fenced journal of steps.

use crate::json::{Json, JsonView};
use crate::lease::{end_of, later};
use crate::rpc::{fails, need, required_str, rpc_error, unknown, unknown_error, RpcError, RpcErrorView};
use crate::schema::{ActivationTransaction, TransactionJournalEntry, TransactionState, TransactionStepState};
use crate::table::{position, position_of};
use crate::task::opt_text;
use crate::text::{concat4, decimal, list_has, str_eq, u64_text, views};
use vstd::prelude::*;

verus! {

/// The first transaction at or after a position with an idempotency key.
pub open spec fn keyed_from(items: Seq<ActivationTransaction>, key: Seq<char>, from: int) -> Option<int>
    decreases items.len() - from,
{
    if from < 0 || from >= items.len() {
        None
    } else if items[from].idempotency_key@ == key {
        Some(from)
    } else {
        keyed_from(items, key, from + 1)
    }
}

/// What a transaction that was just begun holds.
pub open spec fn begun(
    t: ActivationTransaction,
    id: Seq<char>,
    session: Seq<char>,
    key: Seq<char>,
    target: Seq<char>,
    generation: Seq<char>,
    params: JsonView,
    now: u64,
) -> bool {
    &&& t.id@ == id
    &&& t.workspace_session_id@ == session
    &&& t.idempotency_key@ == key
    &&& t.target@ == target
    &&& t.generation_id@ == generation
    &&& opt_text(t.previous_generation_id) == params.get_str("previousGenerationId"@)
    &&& t.state == TransactionState::Planned
    &&& t.created_at == now
    &&& t.updated_at == now
    &&& t.completed_steps@.len() == 0
    &&& t.journal@.len() == 0
    &&& t.lease_fence == params.get_u64("leaseFence"@)
    &&& t.evidence@.len() == 0
    &&& t.error is None
}

/// Begins a transaction. Where one with the same idempotency key is there already, that is the
/// one, and nothing changes. The result is the position of the transaction, and whether it was
/// there already.
pub fn begin_transaction(items: &mut Vec<ActivationTransaction>, params: &Json, now: u64, id: &str) -> (r: Result<
    (usize, bool),
    RpcError,
>)
    ensures
        ({
            let p = params@;
            let same = final(items)@ == old(items)@;
            match need(p, "idempotencyKey"@) {
                Err(e) => fails(r, e) && same,
                Ok(key) => match keyed_from(old(items)@, key, 0) {
                    Some(i) => r matches Ok(k) && k.0 == i && k.1 && same,
                    None => match (need(p, "workspaceSessionId"@), need(p, "target"@), need(p, "generationId"@)) {
                        (Err(e), _, _) => fails(r, e) && same,
                        (Ok(_), Err(e), _) => fails(r, e) && same,
                        (Ok(_), Ok(_), Err(e)) => fails(r, e) && same,
                        (Ok(session), Ok(target), Ok(generation)) => {
                            r matches Ok(k) && k.0 == old(items)@.len() && !k.1 && final(items)@ == old(items)@.push(
                                final(items)@[k.0 as int],
                            ) && begun(final(items)@[k.0 as int], id@, session, key, target, generation, p, now)
                        },
                    },
                },
            }
        }),
{
    let key = match required_str(params, "idempotencyKey") {
        Ok(s) => s,
        Err(e) => return Err(e),
    };
    let mut i: usize = 0;
    while i < items.len()
        invariant
            i <= items.len(),
            items@ == old(items)@,
            need(params@, "idempotencyKey"@) == Ok::<Seq<char>, RpcErrorView>(key@),
            keyed_from(items@, key@, 0) == keyed_from(items@, key@, i as int),
        decreases items.len() - i,
    {
        if str_eq(items[i].idempotency_key.as_str(), key) {
            return Ok((i, true));
        }
        i += 1;
    }
    let session = match required_str(params, "workspaceSessionId") {
        Ok(s) => s,
        Err(e) => return Err(e),
    };
    let target = match required_str(params, "target") {
        Ok(s) => s,
        Err(e) => return Err(e),
    };
    let generation = match required_str(params, "generationId") {
        Ok(s) => s,
        Err(e) => return Err(e),
    };
    let n = items.len();
    items.push(
        ActivationTransaction {
            id: id.to_owned(),
            workspace_session_id: session.to_owned(),
            idempotency_key: key.to_owned(),
            target: target.to_owned(),
            generation_id: generation.to_owned(),
            previous_generation_id: params.get_text("previousGenerationId"),
            state: TransactionState::Planned,
            created_at: now,
            updated_at: now,
            completed_steps: Vec::new(),
            journal: Vec::new(),
            lease_fence: params.get_u64("leaseFence"),
            evidence: Vec::new(),
            error: None,
        },
    );
    Ok((n, false))
}

/// Whether a step is over.
pub open spec fn over(s: TransactionStepState) -> bool {
    s == TransactionStepState::Succeeded || s == TransactionStepState::Failed || s
        == TransactionStepState::Compensated || s == TransactionStepState::OutcomeUnknown
}

/// What the entry of a journal says of a step that was recorded at `now`.
pub open spec fn notes(
    e: TransactionJournalEntry,
    sequence: u64,
    step: Seq<char>,
    state: TransactionStepState,
    params: JsonView,
    now: u64,
) -> bool {
    &&& e.sequence == sequence
    &&& e.step@ == step
    &&& e.state == state
    &&& e.attempt == params.u64_or("attempt"@, 1) % 0x1_0000_0000
    &&& e.started_at == params.u64_or("startedAt"@, now)
    &&& e.finished_at == (if over(state) {
        Some(now)
    } else {
        None
    })
    &&& opt_text(e.input_digest) == params.get_str("inputDigest"@)
    &&& opt_text(e.output_digest) == params.get_str("outputDigest"@)
    &&& opt_text(e.executor_id) == params.get_str("executorId"@)
    &&& e.fence == params.get_u64("fence"@)
    &&& e.details@ == params.get_or_null("details"@)
}

/// The state of a transaction after a step of it was recorded.
pub open spec fn state_after(before: TransactionState, step: Seq<char>, state: TransactionStepState) -> TransactionState {
    match state {
        TransactionStepState::Started => TransactionState::Running,
        TransactionStepState::Succeeded => if step == "activate"@ {
            TransactionState::Activated
        } else {
            before
        },
        TransactionStepState::Failed => TransactionState::Failed,
        TransactionStepState::OutcomeUnknown => TransactionState::OutcomeUnknown,
        TransactionStepState::Compensated => TransactionState::RolledBack,
        TransactionStepState::Planned => before,
    }
}

/// Whether a transaction is another with one step recorded.
pub open spec fn recorded(
    after: ActivationTransaction,
    before: ActivationTransaction,
    step: Seq<char>,
    state: TransactionStepState,
    params: JsonView,
    now: u64,
) -> bool {
    &&& after.journal@.len() == before.journal@.len() + 1
    &&& after.journal@.drop_last() == before.journal@
    &&& notes(after.journal@.last(), later(before.journal@.len() as u64, 1), step, state, params, now)
    &&& after.updated_at == now
    &&& after.state == state_after(before.state, step, state)
    &&& opt_text(after.previous_generation_id) == (if step == "activate"@ && params.get_str(
        "previousGenerationId"@,
    ) is Some {
        params.get_str("previousGenerationId"@)
    } else {
        opt_text(before.previous_generation_id)
    })
    &&& views(after.completed_steps@) == (if state == TransactionStepState::Succeeded && !views(
        before.completed_steps@,
    ).contains(step) {
        views(before.completed_steps@).push(step)
    } else {
        views(before.completed_steps@)
    })
    &&& after == (ActivationTransaction {
        journal: after.journal,
        updated_at: after.updated_at,
        state: after.state,
        previous_generation_id: after.previous_generation_id,
        completed_steps: after.completed_steps,
        ..before
    })
}

/// The error that a request has the fence of another lease than the transaction.
pub open spec fn stale_fence(expected: u64, actual: u64) -> RpcErrorView {
    rpc_error(
        "STALE_FENCING_TOKEN"@,
        "transaction fence is "@ + decimal(expected as nat) + ", request used "@ + decimal(actual as nat),
    )
}

/// Records a step of a transaction in its journal. A request that names a fence has to name that
/// of the transaction, where it has one. The result is the position of the transaction.
pub fn record_step(items: &mut Vec<ActivationTransaction>, params: &Json, step_state: TransactionStepState, now: u64) -> (r:
    Result<usize, RpcError>)
    ensures
        ({
            let p = params@;
            let same = final(items)@ == old(items)@;
            match (need(p, "transactionId"@), need(p, "step"@)) {
                (Err(e), _) => fails(r, e) && same,
                (Ok(_), Err(e)) => fails(r, e) && same,
                (Ok(id), Ok(step)) => match position_of(old(items)@, id) {
                    None => fails(r, unknown("TRANSACTION_NOT_FOUND"@, "unknown transaction: "@, id)) && same,
                    Some(i) => match (old(items)@[i].lease_fence, p.get_u64("fence"@)) {
                        (Some(expected), Some(actual)) if expected != actual => fails(
                            r,
                            stale_fence(expected, actual),
                        ) && same,
                        _ => r matches Ok(k) && k == i && final(items)@ == old(items)@.update(i, final(items)@[i])
                            && recorded(final(items)@[i], old(items)@[i], step, step_state, p, now),
                    },
                },
            }
        }),
{
    let id = match required_str(params, "transactionId") {
        Ok(s) => s,
        Err(e) => return Err(e),
    };
    let step = match required_str(params, "step") {
        Ok(s) => s,
        Err(e) => return Err(e),
    };
    let i = match position(items, id) {
        Some(i) => i,
        None => return Err(unknown_error("TRANSACTION_NOT_FOUND", "unknown transaction: ", id)),
    };
    if let Some(expected) = items[i].lease_fence {
        if let Some(actual) = params.get_u64("fence") {
            if expected != actual {
                let a = u64_text(expected);
                let b = u64_text(actual);
                let message = concat4("transaction fence is ", a.as_str(), ", request used ", b.as_str());
                return Err(RpcError::new("STALE_FENCING_TOKEN", message.as_str()));
            }
        }
    }
    let ghost before = items@[i as int];
    let attempt: u32 = (params.u64_or("attempt", 1) % 0x1_0000_0000) as u32;
    let finished_at = match step_state {
        TransactionStepState::Succeeded
        | TransactionStepState::Failed
        | TransactionStepState::Compensated
        | TransactionStepState::OutcomeUnknown => Some(now),
        _ => None,
    };
    let entry = TransactionJournalEntry {
        sequence: end_of(items[i].journal.len() as u64, 1),
        step: step.to_owned(),
        state: step_state,
        attempt,
        started_at: params.u64_or("startedAt", now),
        finished_at,
        input_digest: params.get_text("inputDigest"),
        output_digest: params.get_text("outputDigest"),
        executor_id: params.get_text("executorId"),
        fence: params.get_u64("fence"),
        details: params.copy_or_null("details"),
    };
    items[i].journal.push(entry);
    items[i].updated_at = now;
    let activates = str_eq(step, "activate");
    if activates {
        if let Some(previous) = params.get_text("previousGenerationId") {
            items[i].previous_generation_id = Some(previous);
        }
    }
    match step_state {
        TransactionStepState::Started => {
            items[i].state = TransactionState::Running;
        },
        TransactionStepState::Succeeded => {
            if !list_has(&items[i].completed_steps, step) {
                items[i].completed_steps.push(step.to_owned());
                proof {
                    assert(views(items@[i as int].completed_steps@) =~= views(before.completed_steps@).push(step@));
                }
            }
            if activates {
                items[i].state = TransactionState::Activated;
            }
        },
        TransactionStepState::Failed => {
            items[i].state = TransactionState::Failed;
        },
        TransactionStepState::OutcomeUnknown => {
            items[i].state = TransactionState::OutcomeUnknown;
        },
        TransactionStepState::Compensated => {
            items[i].state = TransactionState::RolledBack;
        },
        TransactionStepState::Planned => {},
    }
    proof {
        assert(items@[i as int].journal@.drop_last() =~= before.journal@);
        assert(items@ =~= old(items)@.update(i as int, items@[i as int]));
    }
    Ok(i)
}

/// Whether the entries of a journal are numbered from one, without a gap.
pub open spec fn numbered(journal: Seq<TransactionJournalEntry>) -> bool {
    forall|i: int| 0 <= i < journal.len() ==> (#[trigger] journal[i]).sequence == i + 1
}

/// A journal is only ever added to, and stays numbered.
pub proof fn journal_stays_numbered(
    after: ActivationTransaction,
    before: ActivationTransaction,
    step: Seq<char>,
    state: TransactionStepState,
    params: JsonView,
    now: u64,
)
    requires
        recorded(after, before, step, state, params, now),
        numbered(before.journal@),
        before.journal@.len() < u64::MAX,
    ensures
        numbered(after.journal@),
        before.journal@.is_prefix_of(after.journal@),
{
    assert forall|i: int| 0 <= i < after.journal@.len() implies (#[trigger] after.journal@[i]).sequence == i + 1 by {
        if i < before.journal@.len() {
            assert(after.journal@.drop_last()[i] == before.journal@[i]);
        }
    }
    assert(after.journal@.subrange(0, before.journal@.len() as int) =~= before.journal@) by {
        assert(after.journal@.drop_last() =~= after.journal@.subrange(0, before.journal@.len() as int));
    }
}

/// A transaction that was begun is found by its key, so beginning it again changes nothing.
pub proof fn begun_transaction_is_reused(items: Seq<ActivationTransaction>, t: ActivationTransaction)
    requires
        keyed_from(items, t.idempotency_key@, 0) is None,
    ensures
        keyed_from(items.push(t), t.idempotency_key@, 0) == Some(items.len() as int),
{
    lemma_keyed_push(items, t, 0);
}

proof fn lemma_keyed_push(items: Seq<ActivationTransaction>, t: ActivationTransaction, from: int)
    requires
        0 <= from <= items.len(),
        keyed_from(items, t.idempotency_key@, from) is None,
    ensures
        keyed_from(items.push(t), t.idempotency_key@, from) == Some(items.len() as int),
    decreases items.len() - from,
{
    if from < items.len() {
        lemma_keyed_push(items, t, from + 1);
    }
}

/// What a step does to its transaction: one that failed, was compensated or is lost decides the
/// state, one that began sets it running, and only the activation that succeeds activates it.
pub proof fn last_step_decides_the_state(
    after: ActivationTransaction,
    before: ActivationTransaction,
    step: Seq<char>,
    state: TransactionStepState,
    params: JsonView,
    now: u64,
)
    requires
        recorded(after, before, step, state, params, now),
    ensures
        after.state == TransactionState::Activated && before.state != TransactionState::Activated ==> step == "activate"@
            && state == TransactionStepState::Succeeded,
        step == "activate"@ && state == TransactionStepState::Succeeded ==> after.state == TransactionState::Activated,
        state == TransactionStepState::Failed ==> after.state == TransactionState::Failed,
        state == TransactionStepState::OutcomeUnknown ==> after.state == TransactionState::OutcomeUnknown,
        state == TransactionStepState::Compensated ==> after.state == TransactionState::RolledBack,
        state == TransactionStepState::Started ==> after.state == TransactionState::Running,
        state == TransactionStepState::Planned || (state == TransactionStepState::Succeeded && step != "activate"@)
            ==> after.state == before.state,
        after.journal@.last().step@ == step && after.journal@.last().state == state,
        after.journal@.last().finished_at is Some == (state != TransactionStepState::Planned && state
            != TransactionStepState::Started),
        forall|s: Seq<char>|
            #[trigger] views(after.completed_steps@).contains(s) ==> views(before.completed_steps@).contains(s) || (s
                == step && state == TransactionStepState::Succeeded),
        state == TransactionStepState::Succeeded ==> views(after.completed_steps@).contains(step),
        after.lease_fence == before.lease_fence && after.id == before.id && after.generation_id == before.generation_id,
{
    let done = views(before.completed_steps@);
    if state == TransactionStepState::Succeeded && !done.contains(step) {
        assert(done.push(step)[done.len() as int] == step);
        assert forall|s: Seq<char>| #[trigger] done.push(step).contains(s) implies done.contains(s) || s == step by {
            let x = choose|x: int| 0 <= x < done.push(step).len() && done.push(step)[x] == s;
            if x < done.len() {
                assert(done[x] == s);
            }
        }
    }
}

} // verus!
