//! The ledger's operations. Each runs as one invocation: it either takes
//! effect as a whole or leaves the ledger as it was.
//!
//! The ledger does not reach its collaborators itself. Whoever invokes it
//! supplies the identities that consented, the clock reading, and what
//! the token service answered to the movements that the operation asks
//! for.

use vstd::prelude::*;
use crate::auth::AuthContext;
use crate::ledger::{appended, history_in, Histories, PaymentLedger};
use crate::model::{
    movement_views, payment_views, receipt_views, FaultPolicy, LedgerError, Movement, Payment,
    PaymentView, Receipt, RecurringPayment, TokenReply, Verdict,
};
use crate::registry::{
    entry_views, lemma_mapping_of_distinct, PlanEntry, PlanEntryView,
    RecurringRegistry,
};
use crate::rules::{
    after_batch, after_pass, after_registration, after_transfer, answers_for, appended_all,
    batch_outcome, due_movements_of, first_failure, first_fault, gated, leg_records, pass_failure,
    reply_to, settled_histories, settled_plans, transfer_outcome, verdict, verdicts, SystemView,
};

verus! {

/// The payment ledger with its registry of recurring plans.
#[derive(Debug)]
pub struct PaymentMessagingSystem {
    pub ledger: PaymentLedger,
    pub registry: RecurringRegistry,
}

impl View for PaymentMessagingSystem {
    type V = SystemView;

    open spec fn view(&self) -> SystemView {
        SystemView { histories: self.ledger@, plans: self.registry@ }
    }
}

/// The recipients of a batch with their amounts, as plain sequences.
pub open spec fn recipient_views(recipients: Seq<(String, i128)>) -> Seq<(Seq<char>, int)> {
    Seq::new(recipients.len(), |i: int| (recipients[i].0@, recipients[i].1 as int))
}

/// The failure of the earliest of the first `legs` answers that is one.
fn earliest_fault(legs: usize, replies: &Vec<TokenReply>) -> (res: Option<LedgerError>)
    ensures
        res == first_fault(answers_for(legs as int, replies@)),
{
    let ghost counted = answers_for(legs as int, replies@);
    let mut i: usize = 0;
    assert(counted.take(0) =~= Seq::<TokenReply>::empty());
    while i < legs && i < replies.len()
        invariant
            i <= legs,
            i <= replies@.len(),
            counted == answers_for(legs as int, replies@),
            first_fault(counted.take(i as int)) is None,
        decreases replies@.len() - i,
    {
        proof {
            assert(counted.take(i + 1).drop_last() =~= counted.take(i as int));
            assert(counted.take(i + 1).last() == replies@[i as int]);
        }
        match replies[i].as_fault() {
            Some(fault) => {
                proof {
                    lemma_first_fault_stays(counted, i + 1);
                }
                return Some(fault);
            },
            None => {},
        }
        i = i + 1;
    }
    assert(counted.take(i as int) =~= counted);
    None
}

/// A failure among the first `upto` answers is the failure of them all.
proof fn lemma_first_fault_stays(replies: Seq<TokenReply>, upto: int)
    requires
        0 <= upto <= replies.len(),
        first_fault(replies.take(upto)) is Some,
    ensures
        first_fault(replies) == first_fault(replies.take(upto)),
    decreases replies.len() - upto,
{
    if upto < replies.len() {
        assert(replies.take(upto + 1).drop_last() =~= replies.take(upto));
        lemma_first_fault_stays(replies, upto + 1);
    } else {
        assert(replies.take(upto) =~= replies);
    }
}

/// A failure among the first `upto` verdicts is the failure of them all.
proof fn lemma_first_failure_stays(found: Seq<Verdict>, upto: int)
    requires
        0 <= upto <= found.len(),
        first_failure(found.take(upto)) is Some,
    ensures
        first_failure(found) == first_failure(found.take(upto)),
    decreases found.len() - upto,
{
    if upto < found.len() {
        assert(found.take(upto + 1).drop_last() =~= found.take(upto));
        lemma_first_failure_stays(found, upto + 1);
    } else {
        assert(found.take(upto) =~= found);
    }
}

/// The failure of the earliest verdict that is one.
fn earliest_failure(found: &Vec<Verdict>) -> (res: Option<LedgerError>)
    ensures
        res == first_failure(found@),
{
    let mut i: usize = 0;
    assert(found@.take(0) =~= Seq::<Verdict>::empty());
    while i < found.len()
        invariant
            i <= found@.len(),
            first_failure(found@.take(i as int)) is None,
        decreases found@.len() - i,
    {
        proof {
            assert(found@.take(i + 1).drop_last() =~= found@.take(i as int));
            assert(found@.take(i + 1).last() == found@[i as int]);
        }
        match found[i] {
            Verdict::Failed(fault) => {
                proof {
                    lemma_first_failure_stays(found@, i + 1);
                }
                return Some(fault);
            },
            _ => {},
        }
        i = i + 1;
    }
    assert(found@.take(i as int) =~= found@);
    None
}

/// The answer of the latest receipt for `movement`.
fn latest_reply(receipts: &Vec<Receipt>, movement: &Movement) -> (res: Option<TokenReply>)
    ensures
        res == reply_to(receipt_views(receipts@), movement@),
{
    let ghost all = receipt_views(receipts@);
    let mut i: usize = receipts.len();
    assert(all.take(i as int) =~= all);
    while i > 0
        invariant
            i <= receipts@.len(),
            all == receipt_views(receipts@),
            reply_to(all, movement@) == reply_to(all.take(i as int), movement@),
        decreases i,
    {
        proof {
            assert(all.take(i as int).drop_last() =~= all.take(i - 1));
            assert(all.take(i as int).last() == receipts@[i - 1]@);
        }
        i = i - 1;
        if receipts[i].movement.same_as(movement) {
            return Some(receipts[i].reply);
        }
    }
    None
}

/// What a pass at `now` finds for `entry`.
fn assess(entry: &PlanEntry, ctx: &AuthContext, now: u64, receipts: &Vec<Receipt>) -> (res: Verdict)
    ensures
        res == verdict(entry@, now as int, ctx@, receipt_views(receipts@)),
{
    if !entry.plan.is_due(now) {
        Verdict::NotDue
    } else if !ctx.permits(&entry.payer) {
        Verdict::Failed(LedgerError::AuthorizationDenied)
    } else {
        let movement = entry.plan.movement_for(&entry.payer);
        match latest_reply(receipts, &movement) {
            None => Verdict::Pending,
            Some(reply) => match reply.as_fault() {
                Some(fault) => Verdict::Failed(fault),
                None => Verdict::Paid,
            },
        }
    }
}

/// Adding one record after some is adding them all at once.
proof fn lemma_appended_all_push(
    histories: Histories,
    payer: Seq<char>,
    records: Seq<PaymentView>,
    record: PaymentView,
)
    ensures
        appended(appended_all(histories, payer, records), payer, record) == appended_all(
            histories,
            payer,
            records.push(record),
        ),
{
    let left = appended(appended_all(histories, payer, records), payer, record);
    let right = appended_all(histories, payer, records.push(record));
    if records.len() == 0 {
        assert(history_in(histories, payer).push(record) =~= history_in(histories, payer)
            + records.push(record));
    } else {
        assert((history_in(histories, payer) + records).push(record) =~= history_in(
            histories,
            payer,
        ) + records.push(record));
    }
    assert(left =~= right);
}

impl PaymentMessagingSystem {
    /// A ledger without payments and without plans.
    pub fn new() -> (res: Self)
        ensures
            res@.histories == Map::<Seq<char>, Seq<PaymentView>>::empty(),
            res@.plans == Seq::<PlanEntryView>::empty(),
    {
        PaymentMessagingSystem { ledger: PaymentLedger::new(), registry: RecurringRegistry::new() }
    }

    /// The balance of `address` as the token service `reported` it,
    /// unchanged. The query leaves no record. It is refused unless
    /// `address` consented to it.
    pub fn balance(&self, ctx: &AuthContext, address: &String, reported: i128) -> (res: Result<
        i128,
        LedgerError,
    >)
        ensures
            res == gated(ctx@, address@, reported),
    {
        if ctx.permits(address) {
            Ok(reported)
        } else {
            Err(LedgerError::AuthorizationDenied)
        }
    }

    /// The movement that a transfer asks of the token service, once the
    /// sender's consent is established.
    pub fn transfer_request(ctx: &AuthContext, from: &String, to: &String, amount: i128) -> (res:
        Result<Movement, LedgerError>)
        ensures
            match res {
                Ok(movement) => ctx@.contains(from@) && movement.from == *from && movement.to
                    == *to && movement.amount == amount,
                Err(fault) => !ctx@.contains(from@) && fault == LedgerError::AuthorizationDenied,
            },
    {
        if ctx.permits(from) {
            Ok(Movement { from: from.clone(), to: to.clone(), amount })
        } else {
            Err(LedgerError::AuthorizationDenied)
        }
    }

    /// Records the transfer of `amount` from `from` to `to`, to which the
    /// token service answered `reply`. On success exactly one payment is
    /// added behind the earlier payments of `from`. Without the consent
    /// of `from`, or where the token service rejected the movement, the
    /// transfer fails and nothing changes.
    pub fn transfer(
        &mut self,
        ctx: &AuthContext,
        from: String,
        to: String,
        amount: i128,
        message: String,
        reply: TokenReply,
    ) -> (res: Result<bool, LedgerError>)
        ensures
            res == transfer_outcome(ctx@, from@, reply),
            final(self)@ == after_transfer(
                old(self)@,
                ctx@,
                (PaymentView { from: from@, to: to@, amount: amount as int, message: message@ }),
                reply,
            ),
    {
        if !ctx.permits(&from) {
            return Err(LedgerError::AuthorizationDenied);
        }
        match reply.as_fault() {
            Some(fault) => Err(fault),
            None => {
                let payer = from.clone();
                self.ledger.append(payer, Payment { from, to, amount, message });
                Ok(true)
            },
        }
    }

    /// Registers the plan to pay `amount` to `to` every `interval` clock
    /// units, starting at `now`, in place of any plan that `from` had.
    /// Without the consent of `from` nothing changes.
    pub fn create_recurring_payment(
        &mut self,
        ctx: &AuthContext,
        from: String,
        to: String,
        amount: i128,
        interval: u64,
        message: String,
        now: u64,
    ) -> (res: Result<(), LedgerError>)
        ensures
            res == gated(ctx@, from@, ()),
            final(self)@ == after_registration(
                old(self)@,
                ctx@,
                from@,
                (RecurringPayment { to, amount, interval, message, last_payment: now })@,
                now as int,
            ),
    {
        let plan = RecurringPayment { to, amount, interval, message, last_payment: now };
        self.registry.register(ctx, from, plan, now)
    }

    /// Records a batch of transfers from `from`, one leg for each
    /// recipient, where `replies[k]` is what the token service answered
    /// to leg `k`. The batch takes effect as a whole: once every leg was
    /// moved, one payment for each leg is added to the history of `from`,
    /// in the order of the recipients and all with `message`. Without the
    /// consent of `from`, or where a leg was rejected, it fails. While
    /// legs are unanswered the result is `Ok(false)`. In both cases
    /// nothing changes.
    pub fn multi_transfer(
        &mut self,
        ctx: &AuthContext,
        from: String,
        recipients: Vec<(String, i128)>,
        message: String,
        replies: &Vec<TokenReply>,
    ) -> (res: Result<bool, LedgerError>)
        ensures
            res == batch_outcome(ctx@, from@, recipients@.len() as int, replies@),
            final(self)@ == after_batch(
                old(self)@,
                ctx@,
                from@,
                recipient_views(recipients@),
                message@,
                replies@,
            ),
    {
        if !ctx.permits(&from) {
            return Err(LedgerError::AuthorizationDenied);
        }
        match earliest_fault(recipients.len(), replies) {
            Some(fault) => {
                return Err(fault);
            },
            None => {},
        }
        if replies.len() < recipients.len() {
            return Ok(false);
        }
        let ghost records = leg_records(from@, recipient_views(recipients@), message@);
        let ghost before = self.ledger@;
        let mut i: usize = 0;
        assert(records.take(0) =~= Seq::<PaymentView>::empty());
        while i < recipients.len()
            invariant
                i <= recipients@.len(),
                records == leg_records(from@, recipient_views(recipients@), message@),
                self.ledger@ == appended_all(before, from@, records.take(i as int)),
                self.registry@ == old(self).registry@,
            decreases recipients@.len() - i,
        {
            let record = Payment {
                from: from.clone(),
                to: recipients[i].0.clone(),
                amount: recipients[i].1,
                message: message.clone(),
            };
            proof {
                lemma_appended_all_push(before, from@, records.take(i as int), record@);
                assert(records.take(i as int).push(record@) =~= records.take(i + 1));
            }
            self.ledger.append(from.clone(), record);
            i = i + 1;
        }
        assert(records.take(i as int) =~= records);
        Ok(true)
    }

    /// The payments that `address` has made, oldest first. The query
    /// changes nothing. It is refused unless `address` consented to it.
    pub fn get_transaction_history(&self, ctx: &AuthContext, address: &String) -> (res: Result<
        Vec<Payment>,
        LedgerError,
    >)
        ensures
            match res {
                Ok(payments) => ctx@.contains(address@) && payment_views(payments@) == history_in(
                    self@.histories,
                    address@,
                ),
                Err(fault) => !ctx@.contains(address@) && fault == LedgerError::AuthorizationDenied,
            },
    {
        if ctx.permits(address) {
            Ok(self.ledger.history(address))
        } else {
            Err(LedgerError::AuthorizationDenied)
        }
    }

    /// The movements that a pass at `now` asks of the token service: one
    /// for each due plan, in registration order.
    pub fn due_movements(&self, now: u64) -> (res: Vec<Movement>)
        ensures
            movement_views(res@) == due_movements_of(self@.plans, now as int),
    {
        let plans = self.registry.snapshot();
        let ghost all = entry_views(plans@);
        let mut res: Vec<Movement> = Vec::new();
        let mut i: usize = 0;
        assert(all.take(0) =~= Seq::<PlanEntryView>::empty());
        assert(movement_views(res@) =~= due_movements_of(all.take(0), now as int));
        while i < plans.len()
            invariant
                i <= plans@.len(),
                all == entry_views(plans@),
                movement_views(res@) == due_movements_of(all.take(i as int), now as int),
            decreases plans@.len() - i,
        {
            let ghost earlier = movement_views(res@);
            proof {
                assert(all.take(i + 1).drop_last() =~= all.take(i as int));
                assert(all.take(i + 1).last() == plans@[i as int]@);
            }
            if plans[i].plan.is_due(now) {
                res.push(plans[i].plan.movement_for(&plans[i].payer));
                assert(movement_views(res@) =~= earlier.push(
                    plans@[i as int]@.plan.movement(plans@[i as int]@.payer),
                ));
            }
            i = i + 1;
        }
        assert(all.take(i as int) =~= all);
        res
    }

    /// Settles the plans at `now` and tells what it found for each. A plan is
    /// paid where it is due, its payer consented and the latest receipt
    /// for its movement says that the value was moved. A paid plan moves
    /// on to `now` and leaves one payment in its payer's history; every
    /// other plan stays as it was. Under `FaultPolicy::AbortPass` the
    /// earliest due plan that lacks consent or was rejected fails the
    /// whole pass, and nothing changes.
    pub fn process_recurring_payments(
        &mut self,
        ctx: &AuthContext,
        now: u64,
        policy: FaultPolicy,
        receipts: &Vec<Receipt>,
    ) -> (res: Result<Vec<Verdict>, LedgerError>)
        ensures
            match res {
                Ok(found) => found@ == verdicts(
                    old(self)@.plans,
                    now as int,
                    ctx@,
                    receipt_views(receipts@),
                ) && pass_failure(policy, found@) is None,
                Err(fault) => pass_failure(
                    policy,
                    verdicts(old(self)@.plans, now as int, ctx@, receipt_views(receipts@)),
                ) == Some(fault),
            },
            final(self)@ == after_pass(
                old(self)@,
                now as int,
                ctx@,
                policy,
                receipt_views(receipts@),
            ),
    {
        let plans = self.registry.snapshot();
        let ghost all = entry_views(plans@);
        let ghost given = receipt_views(receipts@);
        let ghost expected = verdicts(all, now as int, ctx@, given);
        let mut found: Vec<Verdict> = Vec::new();
        let mut i: usize = 0;
        while i < plans.len()
            invariant
                i <= plans@.len(),
                all == entry_views(plans@),
                given == receipt_views(receipts@),
                expected == verdicts(all, now as int, ctx@, given),
                found@.len() == i,
                forall|j: int| 0 <= j < i ==> found@[j] == expected[j],
            decreases plans@.len() - i,
        {
            found.push(assess(&plans[i], ctx, now, receipts));
            i = i + 1;
        }
        assert(found@ =~= expected);
        match policy {
            FaultPolicy::AbortPass => {
                match earliest_failure(&found) {
                    Some(fault) => {
                        return Err(fault);
                    },
                    None => {},
                }
            },
            FaultPolicy::SkipEntry => {},
        }
        let ghost before = self.ledger@;
        let mut settled: Vec<PlanEntry> = Vec::new();
        let mut k: usize = 0;
        while k < plans.len()
            invariant
                k <= plans@.len(),
                all == entry_views(plans@),
                found@ == expected,
                expected.len() == plans@.len(),
                settled@.len() == k,
                forall|j: int|
                    0 <= j < k ==> settled@[j]@ == settled_plans(all, expected, now as int)[j],
                self.ledger@ == settled_histories(before, all, expected, k as int),
                self.registry@ == old(self).registry@,
            decreases plans@.len() - k,
        {
            let mut entry = plans[k].clone();
            match found[k] {
                Verdict::Paid => {
                    let record = entry.plan.record_for(&entry.payer);
                    self.ledger.append(entry.payer.clone(), record);
                    entry.plan.last_payment = now;
                },
                _ => {},
            }
            settled.push(entry);
            k = k + 1;
        }
        proof {
            let target = settled_plans(all, expected, now as int);
            assert(entry_views(settled@) =~= target);
            assert forall|a: int, b: int| 0 <= a < b < target.len() implies target[a].payer
                != target[b].payer by {
                assert(all[a].payer != all[b].payer);
            }
            lemma_mapping_of_distinct(target);
        }
        self.registry.replace(settled);
        Ok(found)
    }
}

} // verus!
