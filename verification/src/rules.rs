//! What each operation of the ledger does, stated over the histories and
//! the plans alone.

use vstd::prelude::*;
use crate::ledger::{appended, history_in, Histories};
use crate::model::{
    FaultPolicy, LedgerError, MovementView, PaymentView, PlanView, ReceiptView, TokenReply, Verdict,
};
use crate::registry::{registered, PlanEntryView, Plans};

verus! {

/// Everything the ledger keeps: the history of each identity and the
/// plan of each payer.
pub struct SystemView {
    pub histories: Histories,
    pub plans: Plans,
}

/// The answer to a query that `who` must have consented to: `value`
/// where it did.
pub open spec fn gated<T>(granted: Set<Seq<char>>, who: Seq<char>, value: T) -> Result<
    T,
    LedgerError,
> {
    if granted.contains(who) {
        Ok(value)
    } else {
        Err(LedgerError::AuthorizationDenied)
    }
}

/// The ledger after `payer` asked to register `plan` at `now`: the plan
/// stands in the registry, starting at `now`, where `payer` consented,
/// and nothing has changed where it did not.
pub open spec fn after_registration(
    before: SystemView,
    granted: Set<Seq<char>>,
    payer: Seq<char>,
    plan: PlanView,
    now: int,
) -> SystemView {
    if granted.contains(payer) {
        SystemView { plans: registered(before.plans, payer, plan.paid_at(now)), ..before }
    } else {
        before
    }
}

/// How a transfer ends: it needs the sender's consent first and the
/// token service's agreement second.
pub open spec fn transfer_outcome(granted: Set<Seq<char>>, from: Seq<char>, reply: TokenReply) -> Result<
    bool,
    LedgerError,
> {
    if !granted.contains(from) {
        Err(LedgerError::AuthorizationDenied)
    } else {
        match reply.fault() {
            Some(fault) => Err(fault),
            None => Ok(true),
        }
    }
}

/// The ledger after a transfer: one payment more for the sender where
/// the transfer succeeded, and no change at all where it failed.
pub open spec fn after_transfer(
    before: SystemView,
    granted: Set<Seq<char>>,
    payment: PaymentView,
    reply: TokenReply,
) -> SystemView {
    if transfer_outcome(granted, payment.from, reply) is Ok {
        SystemView { histories: appended(before.histories, payment.from, payment), ..before }
    } else {
        before
    }
}

/// The failure of the earliest answer that is one.
pub open spec fn first_fault(replies: Seq<TokenReply>) -> Option<LedgerError>
    decreases replies.len(),
{
    if replies.len() == 0 {
        None
    } else {
        match first_fault(replies.drop_last()) {
            Some(fault) => Some(fault),
            None => replies.last().fault(),
        }
    }
}

/// The answers that count for a batch of `legs` movements: one for each
/// leg, as far as there are any.
pub open spec fn answers_for(legs: int, replies: Seq<TokenReply>) -> Seq<TokenReply> {
    if replies.len() <= legs {
        replies
    } else {
        replies.take(legs)
    }
}

/// How a batch of `legs` movements ends. Without the sender's consent it
/// is denied. The earliest leg that the token service rejected fails it.
/// It succeeds once every leg was answered; while legs are unanswered it
/// is `Ok(false)`.
pub open spec fn batch_outcome(
    granted: Set<Seq<char>>,
    from: Seq<char>,
    legs: int,
    replies: Seq<TokenReply>,
) -> Result<bool, LedgerError> {
    if !granted.contains(from) {
        Err(LedgerError::AuthorizationDenied)
    } else {
        match first_fault(answers_for(legs, replies)) {
            Some(fault) => Err(fault),
            None => Ok(replies.len() >= legs),
        }
    }
}

/// The payments that a batch records: one for each recipient, in the
/// order of the recipients, all with the same message.
pub open spec fn leg_records(from: Seq<char>, recipients: Seq<(Seq<char>, int)>, message: Seq<char>) -> Seq<
    PaymentView,
> {
    Seq::new(
        recipients.len(),
        |i: int| PaymentView { from, to: recipients[i].0, amount: recipients[i].1, message },
    )
}

/// `histories` after `records` were added, in their order, behind the
/// payments of `payer`.
pub open spec fn appended_all(histories: Histories, payer: Seq<char>, records: Seq<PaymentView>) -> Histories {
    if records.len() == 0 {
        histories
    } else {
        histories.insert(payer, history_in(histories, payer) + records)
    }
}

/// The ledger after a batch: every leg recorded where the batch
/// succeeded, and no change at all otherwise.
pub open spec fn after_batch(
    before: SystemView,
    granted: Set<Seq<char>>,
    from: Seq<char>,
    recipients: Seq<(Seq<char>, int)>,
    message: Seq<char>,
    replies: Seq<TokenReply>,
) -> SystemView {
    if batch_outcome(granted, from, recipients.len() as int, replies) == Ok::<bool, LedgerError>(
        true,
    ) {
        SystemView {
            histories: appended_all(
                before.histories,
                from,
                leg_records(from, recipients, message),
            ),
            ..before
        }
    } else {
        before
    }
}

/// The movements that a pass at `now` asks of the token service: one for
/// each due plan, in the order of the plans.
pub open spec fn due_movements_of(plans: Plans, now: int) -> Seq<MovementView>
    decreases plans.len(),
{
    if plans.len() == 0 {
        Seq::empty()
    } else {
        let earlier = due_movements_of(plans.drop_last(), now);
        let entry = plans.last();
        if entry.plan.due(now) {
            earlier.push(entry.plan.movement(entry.payer))
        } else {
            earlier
        }
    }
}

/// The token service's answer to `movement` according to `receipts`: that
/// of the latest receipt for this movement.
pub open spec fn reply_to(receipts: Seq<ReceiptView>, movement: MovementView) -> Option<TokenReply>
    decreases receipts.len(),
{
    if receipts.len() == 0 {
        None
    } else if receipts.last().movement == movement {
        Some(receipts.last().reply)
    } else {
        reply_to(receipts.drop_last(), movement)
    }
}

/// What a pass at `now` finds for one plan.
pub open spec fn verdict(
    entry: PlanEntryView,
    now: int,
    granted: Set<Seq<char>>,
    receipts: Seq<ReceiptView>,
) -> Verdict {
    if !entry.plan.due(now) {
        Verdict::NotDue
    } else if !granted.contains(entry.payer) {
        Verdict::Failed(LedgerError::AuthorizationDenied)
    } else {
        match reply_to(receipts, entry.plan.movement(entry.payer)) {
            None => Verdict::Pending,
            Some(reply) => match reply.fault() {
                Some(fault) => Verdict::Failed(fault),
                None => Verdict::Paid,
            },
        }
    }
}

/// The verdicts of a pass, plan by plan.
pub open spec fn verdicts(
    plans: Plans,
    now: int,
    granted: Set<Seq<char>>,
    receipts: Seq<ReceiptView>,
) -> Seq<Verdict> {
    Seq::new(plans.len(), |i: int| verdict(plans[i], now, granted, receipts))
}

/// The failure of the earliest plan that could not be paid.
pub open spec fn first_failure(found: Seq<Verdict>) -> Option<LedgerError>
    decreases found.len(),
{
    if found.len() == 0 {
        None
    } else {
        match first_failure(found.drop_last()) {
            Some(fault) => Some(fault),
            None => match found.last() {
                Verdict::Failed(fault) => Some(fault),
                _ => None,
            },
        }
    }
}

/// The failure that ends a pass under `policy`, if one does.
pub open spec fn pass_failure(policy: FaultPolicy, found: Seq<Verdict>) -> Option<LedgerError> {
    match policy {
        FaultPolicy::AbortPass => first_failure(found),
        FaultPolicy::SkipEntry => None,
    }
}

/// The plans after a pass that was not aborted: each paid plan has moved
/// on to `now`, every other plan is as it was.
pub open spec fn settled_plans(plans: Plans, found: Seq<Verdict>, now: int) -> Plans {
    Seq::new(
        plans.len(),
        |i: int|
            if found[i] == Verdict::Paid {
                PlanEntryView { payer: plans[i].payer, plan: plans[i].plan.paid_at(now) }
            } else {
                plans[i]
            },
    )
}

/// The histories after the first `upto` plans were settled: one payment
/// more for the payer of each paid plan.
pub open spec fn settled_histories(histories: Histories, plans: Plans, found: Seq<Verdict>, upto: int) -> Histories
    decreases upto,
{
    if upto <= 0 {
        histories
    } else {
        let earlier = settled_histories(histories, plans, found, upto - 1);
        let entry = plans[upto - 1];
        if found[upto - 1] == Verdict::Paid {
            appended(earlier, entry.payer, entry.plan.record(entry.payer))
        } else {
            earlier
        }
    }
}

/// The ledger after a pass at `now` under `policy`.
pub open spec fn after_pass(
    before: SystemView,
    now: int,
    granted: Set<Seq<char>>,
    policy: FaultPolicy,
    receipts: Seq<ReceiptView>,
) -> SystemView {
    let found = verdicts(before.plans, now, granted, receipts);
    if pass_failure(policy, found) is Some {
        before
    } else {
        SystemView {
            histories: settled_histories(
                before.histories,
                before.plans,
                found,
                before.plans.len() as int,
            ),
            plans: settled_plans(before.plans, found, now),
        }
    }
}

} // verus!
