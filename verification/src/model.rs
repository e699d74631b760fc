//! The records the ledger keeps and the values it exchanges with its
//! collaborators.
//!
//! An identity is carried as its canonical text. The ledger never looks
//! inside one: it only compares identities and hands them on.

use vstd::prelude::*;

verus! {

/// One recorded transfer of value. A payment is written once and never
/// changed afterwards.
#[derive(Debug)]
pub struct Payment {
    pub from: String,
    pub to: String,
    pub amount: i128,
    pub message: String,
}

/// The mathematical content of a [`Payment`].
pub struct PaymentView {
    pub from: Seq<char>,
    pub to: Seq<char>,
    pub amount: int,
    pub message: Seq<char>,
}

impl View for Payment {
    type V = PaymentView;

    open spec fn view(&self) -> PaymentView {
        PaymentView {
            from: self.from@,
            to: self.to@,
            amount: self.amount as int,
            message: self.message@,
        }
    }
}

impl Clone for Payment {
    fn clone(&self) -> (res: Self)
        ensures
            res == *self,
    {
        Payment {
            from: self.from.clone(),
            to: self.to.clone(),
            amount: self.amount,
            message: self.message.clone(),
        }
    }
}

impl Payment {
    /// The record of `amount` going from `from` to `to` with `message`.
    pub fn new(from: String, to: String, amount: i128, message: String) -> (res: Self)
        ensures
            res.from == from,
            res.to == to,
            res.amount == amount,
            res.message == message,
    {
        Payment { from, to, amount, message }
    }
}

/// The views of a sequence of payments, element by element.
pub open spec fn payment_views(payments: Seq<Payment>) -> Seq<PaymentView> {
    Seq::new(payments.len(), |i: int| payments[i]@)
}

/// A standing plan: `amount` goes to `to` each time `interval` clock
/// units have passed since `last_payment`.
#[derive(Debug)]
pub struct RecurringPayment {
    pub to: String,
    pub amount: i128,
    pub interval: u64,
    pub message: String,
    pub last_payment: u64,
}

/// The mathematical content of a [`RecurringPayment`].
pub struct PlanView {
    pub to: Seq<char>,
    pub amount: int,
    pub interval: int,
    pub message: Seq<char>,
    pub last_payment: int,
}

impl PlanView {
    /// A plan is due once a full interval has passed since its last
    /// payment.
    pub open spec fn due(self, now: int) -> bool {
        now >= self.last_payment + self.interval
    }

    /// The same plan, paid at `now`.
    pub open spec fn paid_at(self, now: int) -> PlanView {
        PlanView { last_payment: now, ..self }
    }

    /// The record that one occurrence of this plan leaves in the history
    /// of `payer`.
    pub open spec fn record(self, payer: Seq<char>) -> PaymentView {
        PaymentView { from: payer, to: self.to, amount: self.amount, message: self.message }
    }

    /// The movement that one occurrence of this plan asks of the token
    /// service.
    pub open spec fn movement(self, payer: Seq<char>) -> MovementView {
        MovementView { from: payer, to: self.to, amount: self.amount }
    }
}

impl View for RecurringPayment {
    type V = PlanView;

    open spec fn view(&self) -> PlanView {
        PlanView {
            to: self.to@,
            amount: self.amount as int,
            interval: self.interval as int,
            message: self.message@,
            last_payment: self.last_payment as int,
        }
    }
}

impl Clone for RecurringPayment {
    fn clone(&self) -> (res: Self)
        ensures
            res == *self,
    {
        RecurringPayment {
            to: self.to.clone(),
            amount: self.amount,
            interval: self.interval,
            message: self.message.clone(),
            last_payment: self.last_payment,
        }
    }
}

impl RecurringPayment {
    /// A plan whose last payment is taken to be `last_payment`.
    pub fn new(to: String, amount: i128, interval: u64, message: String, last_payment: u64) -> (res:
        Self)
        ensures
            res.to == to,
            res.amount == amount,
            res.interval == interval,
            res.message == message,
            res.last_payment == last_payment,
    {
        RecurringPayment { to, amount, interval, message, last_payment }
    }

    /// Whether a full interval has passed at `now`. The sum is taken over
    /// the integers, so a plan whose next date lies beyond the clock's
    /// range is never due.
    pub fn is_due(&self, now: u64) -> (due: bool)
        ensures
            due == self@.due(now as int),
    {
        now >= self.last_payment && now - self.last_payment >= self.interval
    }

    /// The record that one occurrence leaves in the history of `payer`.
    pub fn record_for(&self, payer: &String) -> (res: Payment)
        ensures
            res@ == self@.record(payer@),
    {
        Payment {
            from: payer.clone(),
            to: self.to.clone(),
            amount: self.amount,
            message: self.message.clone(),
        }
    }

    /// The movement that one occurrence asks of the token service.
    pub fn movement_for(&self, payer: &String) -> (res: Movement)
        ensures
            res@ == self@.movement(payer@),
    {
        Movement { from: payer.clone(), to: self.to.clone(), amount: self.amount }
    }
}

/// A request to the token service: move `amount` from `from` to `to`.
#[derive(Debug)]
pub struct Movement {
    pub from: String,
    pub to: String,
    pub amount: i128,
}

/// The mathematical content of a [`Movement`].
pub struct MovementView {
    pub from: Seq<char>,
    pub to: Seq<char>,
    pub amount: int,
}

impl View for Movement {
    type V = MovementView;

    open spec fn view(&self) -> MovementView {
        MovementView { from: self.from@, to: self.to@, amount: self.amount as int }
    }
}

impl Clone for Movement {
    fn clone(&self) -> (res: Self)
        ensures
            res == *self,
    {
        Movement { from: self.from.clone(), to: self.to.clone(), amount: self.amount }
    }
}

impl Movement {
    /// The request to move `amount` from `from` to `to`.
    pub fn new(from: String, to: String, amount: i128) -> (res: Self)
        ensures
            res.from == from,
            res.to == to,
            res.amount == amount,
    {
        Movement { from, to, amount }
    }

    /// Whether two requests ask for the same movement.
    pub fn same_as(&self, other: &Movement) -> (same: bool)
        ensures
            same == (self@ == other@),
    {
        self.from == other.from && self.to == other.to && self.amount == other.amount
    }
}

/// The views of a sequence of movements, element by element.
pub open spec fn movement_views(movements: Seq<Movement>) -> Seq<MovementView> {
    Seq::new(movements.len(), |i: int| movements[i]@)
}

/// What the token service answered to one requested movement of value.
#[derive(Clone, Copy, Debug, PartialEq, Eq, Structural)]
pub enum TokenReply {
    /// The value was moved.
    Moved,
    /// The sender's balance does not cover the amount.
    InsufficientFunds,
    /// The token service does not accept the recipient.
    InvalidRecipient,
}

/// Why an operation failed. Every failure ends the whole invocation and
/// leaves the ledger as it was.
#[derive(Clone, Copy, Debug, PartialEq, Eq, Structural)]
pub enum LedgerError {
    /// No proof that the acting identity consented.
    AuthorizationDenied,
    /// The token service found the sender's balance too small.
    InsufficientFunds,
    /// The token service did not accept the recipient.
    InvalidRecipient,
}

impl TokenReply {
    /// The failure that this answer stands for, if it is one.
    pub open spec fn fault(self) -> Option<LedgerError> {
        match self {
            TokenReply::Moved => None,
            TokenReply::InsufficientFunds => Some(LedgerError::InsufficientFunds),
            TokenReply::InvalidRecipient => Some(LedgerError::InvalidRecipient),
        }
    }

    /// The failure that this answer stands for: `None` where the value
    /// was moved.
    pub fn as_fault(&self) -> (res: Option<LedgerError>)
        ensures
            res == self.fault(),
    {
        match self {
            TokenReply::Moved => None,
            TokenReply::InsufficientFunds => Some(LedgerError::InsufficientFunds),
            TokenReply::InvalidRecipient => Some(LedgerError::InvalidRecipient),
        }
    }
}

/// How a processing pass treats a due plan that cannot be paid.
#[derive(Clone, Copy, Debug, PartialEq, Eq, Structural)]
pub enum FaultPolicy {
    /// The first such plan fails the whole pass: nothing is kept.
    AbortPass,
    /// Such a plan is left as it was and the pass goes on.
    SkipEntry,
}

/// What the token service answered to one movement that was asked of it.
#[derive(Debug)]
pub struct Receipt {
    pub movement: Movement,
    pub reply: TokenReply,
}

/// The mathematical content of a [`Receipt`].
pub struct ReceiptView {
    pub movement: MovementView,
    pub reply: TokenReply,
}

impl View for Receipt {
    type V = ReceiptView;

    open spec fn view(&self) -> ReceiptView {
        ReceiptView { movement: self.movement@, reply: self.reply }
    }
}

impl Receipt {
    /// The receipt that says `reply` was the answer to `movement`.
    pub fn new(movement: Movement, reply: TokenReply) -> (res: Self)
        ensures
            res.movement == movement,
            res.reply == reply,
    {
        Receipt { movement, reply }
    }
}

/// The views of a sequence of receipts, element by element.
pub open spec fn receipt_views(receipts: Seq<Receipt>) -> Seq<ReceiptView> {
    Seq::new(receipts.len(), |i: int| receipts[i]@)
}

/// What a processing pass found for one plan.
#[derive(Clone, Copy, Debug, PartialEq, Eq, Structural)]
pub enum Verdict {
    /// No full interval has passed since the plan's last payment.
    NotDue,
    /// The plan was paid: its date moved on and a payment was recorded.
    Paid,
    /// The plan is due and its payer consented, but no receipt answers
    /// its movement: it stays as it was.
    Pending,
    /// The plan is due and could not be paid.
    Failed(LedgerError),
}

} // verus!
