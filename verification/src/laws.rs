//! Laws of the ledger: what holds of its operations on every input.

use vstd::prelude::*;
use crate::ledger::{history_in, Histories};
use crate::model::{FaultPolicy, LedgerError, PaymentView, PlanView, ReceiptView, TokenReply, Verdict};
use crate::registry::{
    distinct_payers, lemma_position_of, lemma_registered_distinct, plan_of, position_of,
    registered, PlanEntryView, Plans,
};
use crate::rules::{
    after_batch, after_pass, after_registration, after_transfer, batch_outcome, first_failure,
    leg_records, pass_failure, reply_to, settled_histories, transfer_outcome, verdict,
    verdicts, SystemView,
};

verus! {

/// A transfer succeeds exactly when the sender consented and the token
/// service moved the value. It then adds exactly one payment, the one
/// that was asked for, directly behind the sender's earlier payments, and
/// touches no other history and no plan.
pub proof fn law_transfer_appends_one_payment(
    before: SystemView,
    granted: Set<Seq<char>>,
    payment: PaymentView,
    reply: TokenReply,
)
    requires
        transfer_outcome(granted, payment.from, reply) is Ok,
    ensures
        granted.contains(payment.from),
        reply == TokenReply::Moved,
        history_in(after_transfer(before, granted, payment, reply).histories, payment.from)
            == history_in(before.histories, payment.from).push(payment),
        forall|other: Seq<char>|
            other != payment.from ==> history_in(
                after_transfer(before, granted, payment, reply).histories,
                other,
            ) == history_in(before.histories, other),
        after_transfer(before, granted, payment, reply).plans == before.plans,
{
}

/// A transfer that fails, for want of consent or because the token
/// service rejected it, leaves every history and every plan as it was.
pub proof fn law_failed_transfer_changes_nothing(
    before: SystemView,
    granted: Set<Seq<char>>,
    payment: PaymentView,
    reply: TokenReply,
)
    requires
        transfer_outcome(granted, payment.from, reply) is Err,
    ensures
        !granted.contains(payment.from) || reply != TokenReply::Moved,
        after_transfer(before, granted, payment, reply) == before,
        history_in(after_transfer(before, granted, payment, reply).histories, payment.from).len()
            == history_in(before.histories, payment.from).len(),
{
}

/// A batch that succeeds adds one payment for each recipient behind the
/// sender's earlier payments, in the order of the recipients and all with
/// the same message. A batch that does not succeed changes nothing.
pub proof fn law_batch_records_legs_in_order(
    before: SystemView,
    granted: Set<Seq<char>>,
    from: Seq<char>,
    recipients: Seq<(Seq<char>, int)>,
    message: Seq<char>,
    replies: Seq<TokenReply>,
)
    ensures
        batch_outcome(granted, from, recipients.len() as int, replies) == Ok::<bool, LedgerError>(
            true,
        ) ==> {
            let after = after_batch(before, granted, from, recipients, message, replies);
            let earlier = history_in(before.histories, from);
            let now = history_in(after.histories, from);
            &&& now.len() == earlier.len() + recipients.len()
            &&& now.take(earlier.len() as int) == earlier
            &&& forall|k: int|
                0 <= k < recipients.len() ==> now[earlier.len() + k] == (PaymentView {
                    from,
                    to: recipients[k].0,
                    amount: recipients[k].1,
                    message,
                })
        },
        batch_outcome(granted, from, recipients.len() as int, replies) != Ok::<bool, LedgerError>(
            true,
        ) ==> after_batch(before, granted, from, recipients, message, replies) == before,
{
    if batch_outcome(granted, from, recipients.len() as int, replies) == Ok::<bool, LedgerError>(
        true,
    ) {
        let after = after_batch(before, granted, from, recipients, message, replies);
        let earlier = history_in(before.histories, from);
        let now = history_in(after.histories, from);
        let records = leg_records(from, recipients, message);
        if records.len() == 0 {
            assert(now.take(earlier.len() as int) =~= earlier);
        } else {
            assert(now == earlier + records);
            assert(now.take(earlier.len() as int) =~= earlier);
        }
    }
}

/// Registering a second plan for a payer leaves no trace of the first:
/// the registry is what it would be had only the second been registered.
/// The payer has exactly the second plan, and the registry has grown by
/// no entry.
pub proof fn law_reregistration_replaces(
    plans: Plans,
    payer: Seq<char>,
    first: PlanView,
    second: PlanView,
)
    requires
        distinct_payers(plans),
    ensures
        registered(registered(plans, payer, first), payer, second) == registered(
            plans,
            payer,
            second,
        ),
        plan_of(registered(registered(plans, payer, first), payer, second), payer) == Some(second),
        registered(registered(plans, payer, first), payer, second).len() == registered(
            plans,
            payer,
            first,
        ).len(),
{
    let once = registered(plans, payer, first);
    lemma_registered_distinct(plans, payer, first);
    match position_of(plans, payer) {
        Some(i) => {
            assert(once[i].payer == payer);
            lemma_position_of(once, i);
            assert(once.update(i, PlanEntryView { payer, plan: second }) =~= plans.update(
                i,
                PlanEntryView { payer, plan: second },
            ));
        },
        None => {
            let last = plans.len() as int;
            assert(once[last].payer == payer);
            lemma_position_of(once, last);
            assert(once.update(last, PlanEntryView { payer, plan: second }) =~= plans.push(
                PlanEntryView { payer, plan: second },
            ));
        },
    }
    let twice = registered(once, payer, second);
    lemma_registered_distinct(once, payer, second);
    let at = position_of(once, payer).unwrap();
    assert(twice[at].payer == payer);
    lemma_position_of(twice, at);
}

/// A registered plan is the payer's only plan, starts at the time of
/// registration, and leaves the plans of all other payers as they were.
pub proof fn law_registration_sets_the_plan(
    before: SystemView,
    granted: Set<Seq<char>>,
    payer: Seq<char>,
    plan: PlanView,
    now: int,
)
    requires
        distinct_payers(before.plans),
        granted.contains(payer),
    ensures
        distinct_payers(after_registration(before, granted, payer, plan, now).plans),
        plan_of(after_registration(before, granted, payer, plan, now).plans, payer) == Some(
            plan.paid_at(now),
        ),
        forall|other: Seq<char>|
            other != payer ==> plan_of(
                after_registration(before, granted, payer, plan, now).plans,
                other,
            ) == plan_of(before.plans, other),
        after_registration(before, granted, payer, plan, now).histories == before.histories,
{
    let after = after_registration(before, granted, payer, plan, now).plans;
    lemma_registered_distinct(before.plans, payer, plan.paid_at(now));
    let at = match position_of(before.plans, payer) {
        Some(i) => i,
        None => before.plans.len() as int,
    };
    assert(after[at].payer == payer);
    lemma_position_of(after, at);
    assert forall|other: Seq<char>| other != payer implies plan_of(after, other) == plan_of(
        before.plans,
        other,
    ) by {
        if position_of(before.plans, other) is Some {
            let k = position_of(before.plans, other).unwrap();
            assert(after[k] == before.plans[k]);
            lemma_position_of(after, k);
        } else if position_of(after, other) is Some {
            let k = position_of(after, other).unwrap();
            assert(after[k].payer == other);
            assert(before.plans[k].payer == other);
        }
    }
}

/// Settling plans of other payers leaves the history of `who` alone.
proof fn lemma_unpaid_history(
    histories: Histories,
    plans: Plans,
    found: Seq<Verdict>,
    upto: int,
    who: Seq<char>,
)
    requires
        0 <= upto <= plans.len(),
        found.len() == plans.len(),
        forall|i: int| 0 <= i < upto ==> !(plans[i].payer == who && found[i] == Verdict::Paid),
    ensures
        history_in(settled_histories(histories, plans, found, upto), who) == history_in(
            histories,
            who,
        ),
    decreases upto,
{
    if upto > 0 {
        lemma_unpaid_history(histories, plans, found, upto - 1, who);
    }
}

/// Settling the paid plan of `who` adds its record, once.
proof fn lemma_paid_history(
    histories: Histories,
    plans: Plans,
    found: Seq<Verdict>,
    upto: int,
    at: int,
)
    requires
        distinct_payers(plans),
        0 <= at < upto <= plans.len(),
        found.len() == plans.len(),
        found[at] == Verdict::Paid,
    ensures
        history_in(settled_histories(histories, plans, found, upto), plans[at].payer)
            == history_in(histories, plans[at].payer).push(
            plans[at].plan.record(plans[at].payer),
        ),
    decreases upto,
{
    let who = plans[at].payer;
    if upto == at + 1 {
        assert forall|i: int| 0 <= i < at implies !(plans[i].payer == who && found[i]
            == Verdict::Paid) by {
            assert(plans[i].payer != plans[at].payer);
        }
        lemma_unpaid_history(histories, plans, found, at, who);
    } else {
        lemma_paid_history(histories, plans, found, upto - 1, at);
        assert(plans[at].payer != plans[upto - 1].payer);
    }
}

/// A pass that is not aborted adds to each history exactly what was
/// paid: one payment, as the plan describes it, behind the earlier
/// payments of a payer whose plan was paid, and nothing for anyone else.
/// A paid plan has moved on to `now`; every other plan is as it was.
pub proof fn law_pass_pays_each_due_plan_once(
    before: SystemView,
    now: int,
    granted: Set<Seq<char>>,
    policy: FaultPolicy,
    receipts: Seq<ReceiptView>,
    who: Seq<char>,
)
    requires
        distinct_payers(before.plans),
        pass_failure(policy, verdicts(before.plans, now, granted, receipts)) is None,
    ensures
        ({
            let after = after_pass(before, now, granted, policy, receipts);
            match position_of(before.plans, who) {
                Some(i) => {
                    let entry = before.plans[i];
                    if verdict(entry, now, granted, receipts) == Verdict::Paid {
                        &&& history_in(after.histories, who) == history_in(
                            before.histories,
                            who,
                        ).push(entry.plan.record(who))
                        &&& plan_of(after.plans, who) == Some(entry.plan.paid_at(now))
                    } else {
                        &&& history_in(after.histories, who) == history_in(before.histories, who)
                        &&& plan_of(after.plans, who) == Some(entry.plan)
                    }
                },
                None => {
                    &&& history_in(after.histories, who) == history_in(before.histories, who)
                    &&& plan_of(after.plans, who) is None
                },
            }
        }),
{
    let found = verdicts(before.plans, now, granted, receipts);
    let after = after_pass(before, now, granted, policy, receipts);
    let size = before.plans.len() as int;
    assert forall|a: int, b: int| 0 <= a < b < after.plans.len() implies after.plans[a].payer
        != after.plans[b].payer by {
        assert(before.plans[a].payer != before.plans[b].payer);
    }
    match position_of(before.plans, who) {
        Some(i) => {
            assert(after.plans[i].payer == who);
            lemma_position_of(after.plans, i);
            if found[i] == Verdict::Paid {
                lemma_paid_history(before.histories, before.plans, found, size, i);
            } else {
                assert forall|k: int| 0 <= k < size implies !(before.plans[k].payer == who
                    && found[k] == Verdict::Paid) by {
                    if before.plans[k].payer == who {
                        lemma_position_of(before.plans, k);
                    }
                }
                lemma_unpaid_history(before.histories, before.plans, found, size, who);
            }
        },
        None => {
            lemma_unpaid_history(before.histories, before.plans, found, size, who);
            if position_of(after.plans, who) is Some {
                let k = position_of(after.plans, who).unwrap();
                assert(before.plans[k].payer == who);
            }
        },
    }
}

/// A plan with a positive interval that was registered at `start` is not
/// due at `start`, whoever consents and whatever the receipts say; it is
/// due at `start + interval`, and is paid there once its payer consents
/// and a receipt says that the value was moved.
pub proof fn law_new_plan_waits_one_interval(
    payer: Seq<char>,
    plan: PlanView,
    start: int,
    granted: Set<Seq<char>>,
    receipts: Seq<ReceiptView>,
)
    requires
        plan.interval > 0,
    ensures
        verdict(PlanEntryView { payer, plan: plan.paid_at(start) }, start, granted, receipts)
            == Verdict::NotDue,
        forall|now: int|
            start <= now < start + plan.interval ==> verdict(
                PlanEntryView { payer, plan: plan.paid_at(start) },
                now,
                granted,
                receipts,
            ) == Verdict::NotDue,
        verdict(
            PlanEntryView { payer, plan: plan.paid_at(start) },
            start + plan.interval,
            granted,
            receipts,
        ) != Verdict::NotDue,
        granted.contains(payer) && reply_to(receipts, plan.movement(payer)) == Some(
            TokenReply::Moved,
        ) ==> verdict(
            PlanEntryView { payer, plan: plan.paid_at(start) },
            start + plan.interval,
            granted,
            receipts,
        ) == Verdict::Paid,
{
}

/// A plan with a positive interval that a pass paid at `now` is not due
/// in another pass at the same `now`, whoever consents and whatever the
/// receipts say: the second pass finds it `NotDue`, asks no movement for
/// it and records nothing.
pub proof fn law_second_pass_pays_nothing_again(
    before: SystemView,
    now: int,
    granted: Set<Seq<char>>,
    policy: FaultPolicy,
    receipts: Seq<ReceiptView>,
    again_granted: Set<Seq<char>>,
    again_receipts: Seq<ReceiptView>,
    at: int,
)
    requires
        0 <= at < before.plans.len(),
        before.plans[at].plan.interval > 0,
        pass_failure(policy, verdicts(before.plans, now, granted, receipts)) is None,
        verdicts(before.plans, now, granted, receipts)[at] == Verdict::Paid,
    ensures
        verdicts(
            after_pass(before, now, granted, policy, receipts).plans,
            now,
            again_granted,
            again_receipts,
        )[at] == Verdict::NotDue,
{
}

/// A failure among the verdicts is found.
proof fn lemma_failure_found(found: Seq<Verdict>, at: int)
    requires
        0 <= at < found.len(),
        found[at] is Failed,
    ensures
        first_failure(found) is Some,
    decreases found.len(),
{
    if at < found.len() - 1 {
        lemma_failure_found(found.drop_last(), at);
    }
}

/// Under `FaultPolicy::AbortPass` one due plan that lacks its payer's
/// consent, or whose movement the token service rejected, blocks the
/// whole pass: no plan moves on and no payment is recorded, for any
/// payer.
pub proof fn law_one_failure_blocks_the_pass(
    before: SystemView,
    now: int,
    granted: Set<Seq<char>>,
    receipts: Seq<ReceiptView>,
    at: int,
)
    requires
        0 <= at < before.plans.len(),
        verdict(before.plans[at], now, granted, receipts) is Failed,
    ensures
        after_pass(before, now, granted, FaultPolicy::AbortPass, receipts) == before,
{
    lemma_failure_found(verdicts(before.plans, now, granted, receipts), at);
}

/// Under `FaultPolicy::SkipEntry` no pass is aborted: a plan that could
/// not be paid stays exactly as it was.
pub proof fn law_skipped_plan_is_untouched(
    before: SystemView,
    now: int,
    granted: Set<Seq<char>>,
    receipts: Seq<ReceiptView>,
    at: int,
)
    requires
        0 <= at < before.plans.len(),
        verdict(before.plans[at], now, granted, receipts) != Verdict::Paid,
    ensures
        after_pass(before, now, granted, FaultPolicy::SkipEntry, receipts).plans[at]
            == before.plans[at],
{
}

} // verus!
