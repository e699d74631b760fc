use payment_messaging::auth::AuthContext;
use payment_messaging::model::{
    FaultPolicy, LedgerError, Movement, Payment, Receipt, RecurringPayment, TokenReply, Verdict,
};
use payment_messaging::system::PaymentMessagingSystem;

const INITIAL_MINT_AMOUNT: i128 = 1_000_000_000;

/// A token service for the tests: balances by identity.
struct Token {
    balances: Vec<(String, i128)>,
}

impl Token {
    fn new() -> Token {
        Token { balances: Vec::new() }
    }

    fn mint(&mut self, to: &str, amount: i128) {
        for entry in self.balances.iter_mut() {
            if entry.0 == to {
                entry.1 += amount;
                return;
            }
        }
        self.balances.push((to.to_string(), amount));
    }

    fn balance(&self, of: &str) -> i128 {
        for entry in self.balances.iter() {
            if entry.0 == of {
                return entry.1;
            }
        }
        0
    }

    fn transfer(&mut self, movement: &Movement) -> TokenReply {
        if movement.to.is_empty() {
            return TokenReply::InvalidRecipient;
        }
        if movement.amount < 0 || self.balance(&movement.from) < movement.amount {
            return TokenReply::InsufficientFunds;
        }
        self.mint(&movement.from, -movement.amount);
        self.mint(&movement.to, movement.amount);
        TokenReply::Moved
    }
}

fn id(name: &str) -> String {
    name.to_string()
}

fn consent_of(who: &[&str]) -> AuthContext {
    let mut ctx = AuthContext::new();
    for name in who {
        ctx.grant(id(name));
    }
    ctx
}

fn funded_token(holder: &str) -> Token {
    let mut token = Token::new();
    token.mint(holder, INITIAL_MINT_AMOUNT);
    token
}

/// Asks the token service for each movement in turn and keeps the answers.
fn settle(token: &mut Token, movements: &[Movement]) -> Vec<Receipt> {
    let mut receipts = Vec::new();
    for movement in movements {
        let reply = token.transfer(movement);
        receipts.push(Receipt::new(movement.clone(), reply));
    }
    receipts
}

#[test]
fn test_transfer() {
    let mut system = PaymentMessagingSystem::new();
    let mut token = funded_token("sender");
    let ctx = consent_of(&["sender", "recipient"]);

    let movement =
        PaymentMessagingSystem::transfer_request(&ctx, &id("sender"), &id("recipient"), 10i128)
            .unwrap();
    let reply = token.transfer(&movement);
    let result = system.transfer(
        &ctx,
        id("sender"),
        id("recipient"),
        10i128,
        id("Test payment"),
        reply,
    );
    assert_eq!(result, Ok(true));

    let balance = system
        .balance(&ctx, &id("recipient"), token.balance("recipient"))
        .unwrap();
    assert_eq!(balance, 10i128);
}

#[test]
fn test_recurring_payment() {
    let mut system = PaymentMessagingSystem::new();
    let mut token = funded_token("sender");
    let ctx = consent_of(&["sender"]);

    let created = system.create_recurring_payment(
        &ctx,
        id("sender"),
        id("recipient"),
        10i128,
        86400u64,
        id("Daily payment"),
        0,
    );
    assert_eq!(created, Ok(()));

    let now: u64 = 100000;
    let receipts = settle(&mut token, &system.due_movements(now));
    let found = system
        .process_recurring_payments(&ctx, now, FaultPolicy::AbortPass, &receipts)
        .unwrap();
    assert_eq!(found, vec![Verdict::Paid]);

    let history = system.get_transaction_history(&ctx, &id("sender")).unwrap();
    assert_eq!(history.len(), 1);
    assert_eq!(history.get(0).unwrap().amount, 10i128);
    assert_eq!(history.get(0).unwrap().message, id("Daily payment"));
}

#[test]
fn test_multi_transfer() {
    let mut system = PaymentMessagingSystem::new();
    let mut token = funded_token("sender");
    let ctx = consent_of(&["sender"]);

    let recipients = vec![(id("user2"), 10i128), (id("user3"), 20i128)];
    let mut replies = Vec::new();
    for (to, amount) in recipients.iter() {
        let movement =
            PaymentMessagingSystem::transfer_request(&ctx, &id("sender"), to, *amount).unwrap();
        replies.push(token.transfer(&movement));
    }
    let result = system.multi_transfer(
        &ctx,
        id("sender"),
        recipients,
        id("Multi transfer"),
        &replies,
    );
    assert_eq!(result, Ok(true));

    let history = system.get_transaction_history(&ctx, &id("sender")).unwrap();
    assert_eq!(history.len(), 2);
    assert_eq!(history.get(0).unwrap().amount, 10i128);
    assert_eq!(history.get(1).unwrap().amount, 20i128);
}

#[test]
fn transfer_moves_the_amount_and_appends_one_payment() {
    let mut system = PaymentMessagingSystem::new();
    let mut token = funded_token("alice");
    let ctx = consent_of(&["alice"]);
    system
        .transfer(&ctx, id("alice"), id("carol"), 1, id("first"), TokenReply::Moved)
        .unwrap();

    let before = token.balance("bob");
    let movement =
        PaymentMessagingSystem::transfer_request(&ctx, &id("alice"), &id("bob"), 42).unwrap();
    assert_eq!(movement.from, "alice");
    assert_eq!(movement.to, "bob");
    assert_eq!(movement.amount, 42);
    let reply = token.transfer(&movement);
    assert_eq!(reply, TokenReply::Moved);
    let result = system.transfer(&ctx, id("alice"), id("bob"), 42, id("rent"), reply);
    assert_eq!(result, Ok(true));
    assert_eq!(token.balance("bob") - before, 42);
    assert_eq!(token.balance("alice"), INITIAL_MINT_AMOUNT - 42);

    let history = system.ledger.history(&id("alice"));
    assert_eq!(history.len(), 2);
    assert_eq!(history[0].message, "first");
    assert_eq!(history[1].from, "alice");
    assert_eq!(history[1].to, "bob");
    assert_eq!(history[1].amount, 42);
    assert_eq!(history[1].message, "rent");
    assert_eq!(system.ledger.history(&id("bob")).len(), 0);
}

#[test]
fn transfer_without_consent_is_denied_and_changes_nothing() {
    let mut system = PaymentMessagingSystem::new();
    let ctx = consent_of(&["bob"]);
    assert_eq!(
        PaymentMessagingSystem::transfer_request(&ctx, &id("alice"), &id("bob"), 5).err(),
        Some(LedgerError::AuthorizationDenied)
    );
    let result = system.transfer(&ctx, id("alice"), id("bob"), 5, id("x"), TokenReply::Moved);
    assert_eq!(result, Err(LedgerError::AuthorizationDenied));
    assert_eq!(system.ledger.history(&id("alice")).len(), 0);
}

#[test]
fn rejected_transfer_fails_and_changes_nothing() {
    let mut system = PaymentMessagingSystem::new();
    let mut token = Token::new();
    token.mint("alice", 3);
    let ctx = consent_of(&["alice"]);
    system
        .transfer(&ctx, id("alice"), id("bob"), 1, id("ok"), TokenReply::Moved)
        .unwrap();

    let poor = Movement::new(id("alice"), id("bob"), 5);
    let reply = token.transfer(&poor);
    assert_eq!(reply, TokenReply::InsufficientFunds);
    let result = system.transfer(&ctx, id("alice"), id("bob"), 5, id("x"), reply);
    assert_eq!(result, Err(LedgerError::InsufficientFunds));
    assert_eq!(system.ledger.history(&id("alice")).len(), 1);
    assert_eq!(token.balance("alice"), 3);

    let nowhere = Movement::new(id("alice"), id(""), 1);
    let reply = token.transfer(&nowhere);
    assert_eq!(reply, TokenReply::InvalidRecipient);
    let result = system.transfer(&ctx, id("alice"), id(""), 1, id("x"), reply);
    assert_eq!(result, Err(LedgerError::InvalidRecipient));
    assert_eq!(system.ledger.history(&id("alice")).len(), 1);
}

#[test]
fn denial_comes_before_the_token_reply() {
    let mut system = PaymentMessagingSystem::new();
    let ctx = AuthContext::new();
    let result = system.transfer(
        &ctx,
        id("alice"),
        id("bob"),
        5,
        id("x"),
        TokenReply::InsufficientFunds,
    );
    assert_eq!(result, Err(LedgerError::AuthorizationDenied));
}

#[test]
fn multi_transfer_records_legs_in_order_with_one_message() {
    let mut system = PaymentMessagingSystem::new();
    let ctx = consent_of(&["A"]);
    let recipients = vec![(id("B"), 10i128), (id("C"), 20i128)];
    let replies = vec![TokenReply::Moved, TokenReply::Moved];
    let result = system.multi_transfer(&ctx, id("A"), recipients, id("shared"), &replies);
    assert_eq!(result, Ok(true));
    let history = system.ledger.history(&id("A"));
    assert_eq!(history.len(), 2);
    assert_eq!(history[0].from, "A");
    assert_eq!(history[0].to, "B");
    assert_eq!(history[0].amount, 10);
    assert_eq!(history[0].message, "shared");
    assert_eq!(history[1].from, "A");
    assert_eq!(history[1].to, "C");
    assert_eq!(history[1].amount, 20);
    assert_eq!(history[1].message, "shared");
}

#[test]
fn multi_transfer_with_a_rejected_leg_records_nothing() {
    let mut system = PaymentMessagingSystem::new();
    let ctx = consent_of(&["A"]);
    let recipients = vec![(id("B"), 10i128), (id("C"), 20i128), (id("D"), 30i128)];
    let replies = vec![TokenReply::Moved, TokenReply::InvalidRecipient];
    let result = system.multi_transfer(&ctx, id("A"), recipients, id("m"), &replies);
    assert_eq!(result, Err(LedgerError::InvalidRecipient));
    assert_eq!(system.ledger.history(&id("A")).len(), 0);
}

#[test]
fn multi_transfer_reports_the_earliest_rejection() {
    let mut system = PaymentMessagingSystem::new();
    let ctx = consent_of(&["A"]);
    let recipients = vec![(id("B"), 10i128), (id("C"), 20i128)];
    let replies = vec![TokenReply::InsufficientFunds, TokenReply::InvalidRecipient];
    let result = system.multi_transfer(&ctx, id("A"), recipients, id("m"), &replies);
    assert_eq!(result, Err(LedgerError::InsufficientFunds));
}

#[test]
fn multi_transfer_ignores_answers_beyond_its_legs() {
    let mut system = PaymentMessagingSystem::new();
    let ctx = consent_of(&["A"]);
    let recipients = vec![(id("B"), 10i128)];
    let replies = vec![TokenReply::Moved, TokenReply::InsufficientFunds];
    let result = system.multi_transfer(&ctx, id("A"), recipients, id("m"), &replies);
    assert_eq!(result, Ok(true));
    assert_eq!(system.ledger.history(&id("A")).len(), 1);
}

#[test]
fn multi_transfer_with_unanswered_legs_records_nothing() {
    let mut system = PaymentMessagingSystem::new();
    let ctx = consent_of(&["A"]);
    let recipients = vec![(id("B"), 10i128), (id("C"), 20i128)];
    let replies = vec![TokenReply::Moved];
    let result = system.multi_transfer(&ctx, id("A"), recipients, id("m"), &replies);
    assert_eq!(result, Ok(false));
    assert_eq!(system.ledger.history(&id("A")).len(), 0);
}

#[test]
fn multi_transfer_without_consent_is_denied() {
    let mut system = PaymentMessagingSystem::new();
    let ctx = consent_of(&["B"]);
    let recipients = vec![(id("B"), 10i128)];
    let replies = vec![TokenReply::Moved];
    let result = system.multi_transfer(&ctx, id("A"), recipients, id("m"), &replies);
    assert_eq!(result, Err(LedgerError::AuthorizationDenied));
    assert_eq!(system.ledger.history(&id("A")).len(), 0);
}

#[test]
fn multi_transfer_without_recipients_succeeds_and_records_nothing() {
    let mut system = PaymentMessagingSystem::new();
    let ctx = consent_of(&["A"]);
    let result = system.multi_transfer(&ctx, id("A"), Vec::new(), id("m"), &Vec::new());
    assert_eq!(result, Ok(true));
    assert_eq!(system.ledger.history(&id("A")).len(), 0);
}

#[test]
fn new_plan_is_not_due_before_one_interval_and_paid_once_after() {
    let mut system = PaymentMessagingSystem::new();
    let mut token = funded_token("A");
    let ctx = consent_of(&["A"]);
    let start: u64 = 5000;
    system
        .create_recurring_payment(&ctx, id("A"), id("B"), 10, 86400, id("msg"), start)
        .unwrap();

    assert_eq!(system.due_movements(start).len(), 0);
    let found = system
        .process_recurring_payments(&ctx, start, FaultPolicy::AbortPass, &Vec::new())
        .unwrap();
    assert_eq!(found, vec![Verdict::NotDue]);
    assert_eq!(system.ledger.history(&id("A")).len(), 0);
    assert_eq!(system.registry.plan(&id("A")).unwrap().last_payment, start);

    let early = start + 86399;
    assert_eq!(system.due_movements(early).len(), 0);

    let now = start + 86400;
    let movements = system.due_movements(now);
    assert_eq!(movements.len(), 1);
    assert_eq!(movements[0].from, "A");
    assert_eq!(movements[0].to, "B");
    assert_eq!(movements[0].amount, 10);
    let receipts = settle(&mut token, &movements);
    let found = system
        .process_recurring_payments(&ctx, now, FaultPolicy::AbortPass, &receipts)
        .unwrap();
    assert_eq!(found, vec![Verdict::Paid]);
    let history = system.ledger.history(&id("A"));
    assert_eq!(history.len(), 1);
    assert_eq!(history[0].from, "A");
    assert_eq!(history[0].to, "B");
    assert_eq!(history[0].amount, 10);
    assert_eq!(history[0].message, "msg");
    assert_eq!(system.registry.plan(&id("A")).unwrap().last_payment, now);
    assert_eq!(token.balance("B"), 10);
}

#[test]
fn second_pass_at_the_same_time_moves_nothing() {
    let mut system = PaymentMessagingSystem::new();
    let mut token = funded_token("A");
    let ctx = consent_of(&["A"]);
    system
        .create_recurring_payment(&ctx, id("A"), id("B"), 10, 86400, id("msg"), 0)
        .unwrap();
    let now: u64 = 86400;
    let receipts = settle(&mut token, &system.due_movements(now));
    system
        .process_recurring_payments(&ctx, now, FaultPolicy::AbortPass, &receipts)
        .unwrap();
    let paid = token.balance("B");

    let again = system.due_movements(now);
    assert_eq!(again.len(), 0);
    let found = system
        .process_recurring_payments(&ctx, now, FaultPolicy::AbortPass, &receipts)
        .unwrap();
    assert_eq!(found, vec![Verdict::NotDue]);
    assert_eq!(token.balance("B"), paid);
    assert_eq!(system.ledger.history(&id("A")).len(), 1);
}

#[test]
fn plan_without_interval_is_due_at_once() {
    let mut system = PaymentMessagingSystem::new();
    let ctx = consent_of(&["A"]);
    system
        .create_recurring_payment(&ctx, id("A"), id("B"), 10, 0, id("msg"), 7)
        .unwrap();
    assert_eq!(system.due_movements(7).len(), 1);
}

#[test]
fn plan_whose_next_date_is_out_of_range_is_never_due() {
    let plan = RecurringPayment::new(id("B"), 1, u64::MAX, id("m"), 1);
    assert!(!plan.is_due(u64::MAX));
    let edge = RecurringPayment::new(id("B"), 1, u64::MAX, id("m"), 0);
    assert!(edge.is_due(u64::MAX));
    assert!(!edge.is_due(u64::MAX - 1));
}

#[test]
fn reregistration_replaces_the_plan() {
    let mut system = PaymentMessagingSystem::new();
    let ctx = consent_of(&["A", "C"]);
    system
        .create_recurring_payment(&ctx, id("A"), id("B"), 10, 100, id("old"), 1)
        .unwrap();
    system
        .create_recurring_payment(&ctx, id("C"), id("B"), 7, 50, id("other"), 2)
        .unwrap();
    system
        .create_recurring_payment(&ctx, id("A"), id("D"), 25, 300, id("new"), 3)
        .unwrap();

    let snapshot = system.registry.snapshot();
    assert_eq!(snapshot.len(), 2);
    assert_eq!(snapshot[0].payer, "A");
    assert_eq!(snapshot[0].plan.to, "D");
    assert_eq!(snapshot[0].plan.amount, 25);
    assert_eq!(snapshot[0].plan.interval, 300);
    assert_eq!(snapshot[0].plan.message, "new");
    assert_eq!(snapshot[0].plan.last_payment, 3);
    assert_eq!(snapshot[1].payer, "C");
    assert_eq!(snapshot[1].plan.amount, 7);
    for entry in snapshot.iter() {
        assert_ne!(entry.plan.message, "old");
    }
}

#[test]
fn registration_without_consent_is_denied() {
    let mut system = PaymentMessagingSystem::new();
    let ctx = consent_of(&["B"]);
    let result = system.create_recurring_payment(&ctx, id("A"), id("B"), 10, 100, id("m"), 1);
    assert_eq!(result, Err(LedgerError::AuthorizationDenied));
    assert_eq!(system.registry.snapshot().len(), 0);
    assert!(system.registry.plan(&id("A")).is_none());
}

#[test]
fn reads_repeat_and_change_nothing() {
    let mut system = PaymentMessagingSystem::new();
    let ctx = consent_of(&["A"]);
    system
        .transfer(&ctx, id("A"), id("B"), 3, id("m"), TokenReply::Moved)
        .unwrap();
    let first = system.get_transaction_history(&ctx, &id("A")).unwrap();
    let second = system.get_transaction_history(&ctx, &id("A")).unwrap();
    assert_eq!(first.len(), second.len());
    assert_eq!(first[0].to, second[0].to);
    assert_eq!(first[0].amount, second[0].amount);
    assert_eq!(first[0].message, second[0].message);
    assert_eq!(system.balance(&ctx, &id("A"), 77), Ok(77));
    assert_eq!(system.balance(&ctx, &id("A"), 77), Ok(77));
    assert_eq!(system.ledger.history(&id("A")).len(), 1);
}

#[test]
fn reads_without_consent_are_denied() {
    let system = PaymentMessagingSystem::new();
    let ctx = consent_of(&["B"]);
    assert_eq!(
        system.balance(&ctx, &id("A"), 5),
        Err(LedgerError::AuthorizationDenied)
    );
    assert_eq!(
        system.get_transaction_history(&ctx, &id("A")).err(),
        Some(LedgerError::AuthorizationDenied)
    );
}

#[test]
fn history_of_an_unknown_identity_is_empty() {
    let system = PaymentMessagingSystem::new();
    let ctx = consent_of(&["A"]);
    assert_eq!(system.get_transaction_history(&ctx, &id("A")).unwrap().len(), 0);
}

fn three_plans() -> PaymentMessagingSystem {
    let mut system = PaymentMessagingSystem::new();
    let ctx = consent_of(&["A", "B", "C"]);
    system
        .create_recurring_payment(&ctx, id("A"), id("X"), 1, 10, id("a"), 0)
        .unwrap();
    system
        .create_recurring_payment(&ctx, id("B"), id("X"), 2, 10, id("b"), 0)
        .unwrap();
    system
        .create_recurring_payment(&ctx, id("C"), id("X"), 3, 1000, id("c"), 0)
        .unwrap();
    system
}

#[test]
fn one_missing_consent_blocks_the_whole_pass() {
    let mut system = three_plans();
    let ctx = consent_of(&["A"]);
    let movements = system.due_movements(10);
    assert_eq!(movements.len(), 2);
    let receipts = vec![
        Receipt::new(movements[0].clone(), TokenReply::Moved),
        Receipt::new(movements[1].clone(), TokenReply::Moved),
    ];
    let result = system.process_recurring_payments(&ctx, 10, FaultPolicy::AbortPass, &receipts);
    assert_eq!(result, Err(LedgerError::AuthorizationDenied));
    assert_eq!(system.ledger.history(&id("A")).len(), 0);
    assert_eq!(system.registry.plan(&id("A")).unwrap().last_payment, 0);
    assert_eq!(system.registry.plan(&id("B")).unwrap().last_payment, 0);
}

#[test]
fn skipping_keeps_what_could_be_paid() {
    let mut system = three_plans();
    let ctx = consent_of(&["A"]);
    let movements = system.due_movements(10);
    let receipts = vec![
        Receipt::new(movements[0].clone(), TokenReply::Moved),
        Receipt::new(movements[1].clone(), TokenReply::Moved),
    ];
    let found = system
        .process_recurring_payments(&ctx, 10, FaultPolicy::SkipEntry, &receipts)
        .unwrap();
    assert_eq!(
        found,
        vec![
            Verdict::Paid,
            Verdict::Failed(LedgerError::AuthorizationDenied),
            Verdict::NotDue
        ]
    );
    assert_eq!(system.ledger.history(&id("A")).len(), 1);
    assert_eq!(system.ledger.history(&id("B")).len(), 0);
    assert_eq!(system.registry.plan(&id("A")).unwrap().last_payment, 10);
    assert_eq!(system.registry.plan(&id("B")).unwrap().last_payment, 0);
    assert_eq!(system.registry.plan(&id("C")).unwrap().last_payment, 0);
}

#[test]
fn rejected_plan_fails_the_pass_with_the_token_fault() {
    let mut system = three_plans();
    let ctx = consent_of(&["A", "B"]);
    let movements = system.due_movements(10);
    let receipts = vec![
        Receipt::new(movements[0].clone(), TokenReply::InsufficientFunds),
        Receipt::new(movements[1].clone(), TokenReply::InvalidRecipient),
    ];
    let result = system.process_recurring_payments(&ctx, 10, FaultPolicy::AbortPass, &receipts);
    assert_eq!(result, Err(LedgerError::InsufficientFunds));

    let found = system
        .process_recurring_payments(&ctx, 10, FaultPolicy::SkipEntry, &receipts)
        .unwrap();
    assert_eq!(
        found,
        vec![
            Verdict::Failed(LedgerError::InsufficientFunds),
            Verdict::Failed(LedgerError::InvalidRecipient),
            Verdict::NotDue
        ]
    );
    assert_eq!(system.ledger.history(&id("A")).len(), 0);
    assert_eq!(system.ledger.history(&id("B")).len(), 0);
}

#[test]
fn plan_without_a_receipt_stays_pending() {
    let mut system = three_plans();
    let ctx = consent_of(&["A", "B"]);
    let movements = system.due_movements(10);
    let receipts = vec![Receipt::new(movements[1].clone(), TokenReply::Moved)];
    let found = system
        .process_recurring_payments(&ctx, 10, FaultPolicy::AbortPass, &receipts)
        .unwrap();
    assert_eq!(found, vec![Verdict::Pending, Verdict::Paid, Verdict::NotDue]);
    assert_eq!(system.registry.plan(&id("A")).unwrap().last_payment, 0);
    assert_eq!(system.registry.plan(&id("B")).unwrap().last_payment, 10);
    assert_eq!(system.ledger.history(&id("B")).len(), 1);
}

#[test]
fn receipt_for_another_amount_does_not_pay_a_plan() {
    let mut system = three_plans();
    let ctx = consent_of(&["A", "B"]);
    let receipts = vec![Receipt::new(
        Movement::new(id("A"), id("X"), 999),
        TokenReply::Moved,
    )];
    let found = system
        .process_recurring_payments(&ctx, 10, FaultPolicy::AbortPass, &receipts)
        .unwrap();
    assert_eq!(found, vec![Verdict::Pending, Verdict::Pending, Verdict::NotDue]);
    assert_eq!(system.ledger.history(&id("A")).len(), 0);
}

#[test]
fn latest_receipt_for_a_movement_counts() {
    let mut system = three_plans();
    let ctx = consent_of(&["A"]);
    let movement = Movement::new(id("A"), id("X"), 1);
    let receipts = vec![
        Receipt::new(movement.clone(), TokenReply::InsufficientFunds),
        Receipt::new(movement.clone(), TokenReply::Moved),
    ];
    let found = system
        .process_recurring_payments(&ctx, 10, FaultPolicy::SkipEntry, &receipts)
        .unwrap();
    assert_eq!(found[0], Verdict::Paid);
}

#[test]
fn replace_keeps_the_later_entry_of_a_payer() {
    let mut system = three_plans();
    let mut mapping = system.registry.snapshot();
    assert_eq!(mapping.len(), 3);
    mapping.remove(1);
    let mut changed = mapping[0].clone();
    changed.plan.amount = 50;
    mapping.push(changed);
    system.registry.replace(mapping);
    let snapshot = system.registry.snapshot();
    assert_eq!(snapshot.len(), 2);
    assert_eq!(snapshot[0].payer, "A");
    assert_eq!(snapshot[0].plan.amount, 50);
    assert_eq!(snapshot[1].payer, "C");
    assert!(system.registry.plan(&id("B")).is_none());
}

#[test]
fn ledger_appends_in_order_per_payer() {
    let mut system = PaymentMessagingSystem::new();
    system
        .ledger
        .append(id("A"), Payment::new(id("A"), id("B"), 1, id("one")));
    system
        .ledger
        .append(id("C"), Payment::new(id("C"), id("B"), 2, id("two")));
    system
        .ledger
        .append(id("A"), Payment::new(id("A"), id("D"), 3, id("three")));
    let history = system.ledger.history(&id("A"));
    assert_eq!(history.len(), 2);
    assert_eq!(history[0].amount, 1);
    assert_eq!(history[1].amount, 3);
    assert_eq!(system.ledger.history(&id("C")).len(), 1);
}

#[test]
fn token_reply_names_its_fault() {
    assert_eq!(TokenReply::Moved.as_fault(), None);
    assert_eq!(
        TokenReply::InsufficientFunds.as_fault(),
        Some(LedgerError::InsufficientFunds)
    );
    assert_eq!(
        TokenReply::InvalidRecipient.as_fault(),
        Some(LedgerError::InvalidRecipient)
    );
}
