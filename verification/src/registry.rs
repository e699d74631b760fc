//! The recurring payment registry: for each payer at most one standing
//! plan, kept in the order in which the payers first registered.

use vstd::prelude::*;
use crate::auth::AuthContext;
use crate::model::{LedgerError, PlanView, RecurringPayment};

verus! {

/// A payer together with its plan.
#[derive(Debug)]
pub struct PlanEntry {
    pub payer: String,
    pub plan: RecurringPayment,
}

/// The mathematical content of a [`PlanEntry`].
pub struct PlanEntryView {
    pub payer: Seq<char>,
    pub plan: PlanView,
}

impl View for PlanEntry {
    type V = PlanEntryView;

    open spec fn view(&self) -> PlanEntryView {
        PlanEntryView { payer: self.payer@, plan: self.plan@ }
    }
}

impl Clone for PlanEntry {
    fn clone(&self) -> (res: Self)
        ensures
            res == *self,
    {
        PlanEntry { payer: self.payer.clone(), plan: self.plan.clone() }
    }
}

/// The views of a sequence of entries, element by element.
pub open spec fn entry_views(entries: Seq<PlanEntry>) -> Seq<PlanEntryView> {
    Seq::new(entries.len(), |i: int| entries[i]@)
}

/// The plans of all payers, in registration order.
pub type Plans = Seq<PlanEntryView>;

/// No payer has two plans.
pub open spec fn distinct_payers(plans: Plans) -> bool {
    forall|i: int, j: int| 0 <= i < j < plans.len() ==> plans[i].payer != plans[j].payer
}

/// Where the plan of `payer` lies in `plans`, if it has one.
pub open spec fn position_of(plans: Plans, payer: Seq<char>) -> Option<int> {
    if exists|i: int| 0 <= i < plans.len() && plans[i].payer == payer {
        Some(choose|i: int| 0 <= i < plans.len() && plans[i].payer == payer)
    } else {
        None
    }
}

/// The plan of `payer` in `plans`, if it has one.
pub open spec fn plan_of(plans: Plans, payer: Seq<char>) -> Option<PlanView> {
    match position_of(plans, payer) {
        Some(i) => Some(plans[i].plan),
        None => None,
    }
}

/// `plans` after `payer` registered `plan`: an earlier plan of the same
/// payer gives way to it and keeps its place, a new payer goes last.
pub open spec fn registered(plans: Plans, payer: Seq<char>, plan: PlanView) -> Plans {
    match position_of(plans, payer) {
        Some(i) => plans.update(i, PlanEntryView { payer, plan }),
        None => plans.push(PlanEntryView { payer, plan }),
    }
}

/// The mapping that `entries` describe when they are registered one after
/// the other: of two entries of one payer the later one stands.
pub open spec fn mapping_of(entries: Seq<PlanEntryView>) -> Plans
    decreases entries.len(),
{
    if entries.len() == 0 {
        Seq::empty()
    } else {
        registered(mapping_of(entries.drop_last()), entries.last().payer, entries.last().plan)
    }
}

/// Among distinct payers, the entry at `i` is the one its payer is found
/// at.
pub proof fn lemma_position_of(plans: Plans, i: int)
    requires
        distinct_payers(plans),
        0 <= i < plans.len(),
    ensures
        position_of(plans, plans[i].payer) == Some(i),
        plan_of(plans, plans[i].payer) == Some(plans[i].plan),
{
    let payer = plans[i].payer;
    let found = choose|k: int| 0 <= k < plans.len() && plans[k].payer == payer;
    assert(0 <= found < plans.len() && plans[found].payer == payer);
    if found < i {
        assert(plans[found].payer != plans[i].payer);
    } else if i < found {
        assert(plans[i].payer != plans[found].payer);
    }
}

/// Registering keeps the payers distinct.
pub proof fn lemma_registered_distinct(plans: Plans, payer: Seq<char>, plan: PlanView)
    requires
        distinct_payers(plans),
    ensures
        distinct_payers(registered(plans, payer, plan)),
{
    let after = registered(plans, payer, plan);
    match position_of(plans, payer) {
        Some(k) => {
            assert forall|i: int, j: int| 0 <= i < j < after.len() implies after[i].payer
                != after[j].payer by {
                assert(plans[i].payer != plans[j].payer);
            }
        },
        None => {
            assert forall|i: int, j: int| 0 <= i < j < after.len() implies after[i].payer
                != after[j].payer by {
                if j < plans.len() {
                    assert(plans[i].payer != plans[j].payer);
                } else {
                    assert(plans[i].payer != payer);
                }
            }
        },
    }
}

/// Entries with distinct payers describe themselves.
pub proof fn lemma_mapping_of_distinct(entries: Seq<PlanEntryView>)
    requires
        distinct_payers(entries),
    ensures
        mapping_of(entries) == entries,
    decreases entries.len(),
{
    if entries.len() > 0 {
        let front = entries.drop_last();
        assert forall|i: int, j: int| 0 <= i < j < front.len() implies front[i].payer
            != front[j].payer by {
            assert(entries[i].payer != entries[j].payer);
        }
        lemma_mapping_of_distinct(front);
        if position_of(front, entries.last().payer) is Some {
            let k = position_of(front, entries.last().payer).unwrap();
            assert(entries[k].payer != entries[entries.len() - 1].payer);
        }
        assert(front.push(entries.last()) =~= entries);
    } else {
        assert(mapping_of(entries) =~= entries);
    }
}

/// The registry. It holds at most one plan for each payer.
#[derive(Debug)]
pub struct RecurringRegistry {
    entries: Vec<PlanEntry>,
}

impl View for RecurringRegistry {
    type V = Plans;

    closed spec fn view(&self) -> Plans {
        entry_views(self.entries@)
    }
}

/// The index of the plan of `payer` among `entries`.
fn find(entries: &Vec<PlanEntry>, payer: &String) -> (res: Option<usize>)
    requires
        distinct_payers(entry_views(entries@)),
    ensures
        res is Some ==> res.unwrap() < entries@.len(),
        position_of(entry_views(entries@), payer@) == match res {
            Some(i) => Some(i as int),
            None => None,
        },
{
    let mut i: usize = 0;
    while i < entries.len()
        invariant
            i <= entries@.len(),
            distinct_payers(entry_views(entries@)),
            forall|j: int| 0 <= j < i ==> entry_views(entries@)[j].payer != payer@,
        decreases entries@.len() - i,
    {
        if entries[i].payer == *payer {
            proof {
                lemma_position_of(entry_views(entries@), i as int);
            }
            return Some(i);
        }
        i = i + 1;
    }
    None
}

/// Puts `entry` in the place of its payer's plan, or last.
fn put(entries: &mut Vec<PlanEntry>, entry: PlanEntry)
    requires
        distinct_payers(entry_views(old(entries)@)),
    ensures
        entry_views(final(entries)@) == registered(
            entry_views(old(entries)@),
            entry.payer@,
            entry.plan@,
        ),
        distinct_payers(entry_views(final(entries)@)),
{
    let ghost before = entry_views(entries@);
    let ghost added = entry@;
    match find(entries, &entry.payer) {
        Some(i) => {
            entries.set(i, entry);
            assert(entry_views(entries@) =~= before.update(i as int, added));
        },
        None => {
            entries.push(entry);
            assert(entry_views(entries@) =~= before.push(added));
        },
    }
    proof {
        lemma_registered_distinct(before, added.payer, added.plan);
    }
}

impl RecurringRegistry {
    #[verifier::type_invariant]
    closed spec fn well_formed(&self) -> bool {
        distinct_payers(entry_views(self.entries@))
    }

    /// A registry without any plan.
    pub fn new() -> (res: Self)
        ensures
            res@ == Seq::<PlanEntryView>::empty(),
    {
        let res = RecurringRegistry { entries: Vec::new() };
        assert(res@ =~= Seq::<PlanEntryView>::empty());
        res
    }

    /// Registers `plan` for `payer`, in place of any plan that `payer`
    /// had. The plan starts at `now`: whatever `plan.last_payment` held
    /// gives way to the clock reading. Fails, and changes nothing, unless
    /// `payer` consented.
    pub fn register(
        &mut self,
        ctx: &AuthContext,
        payer: String,
        plan: RecurringPayment,
        now: u64,
    ) -> (res: Result<(), LedgerError>)
        ensures
            res == if ctx@.contains(payer@) {
                Ok::<(), LedgerError>(())
            } else {
                Err::<(), LedgerError>(LedgerError::AuthorizationDenied)
            },
            final(self)@ == if ctx@.contains(payer@) {
                registered(old(self)@, payer@, plan@.paid_at(now as int))
            } else {
                old(self)@
            },
    {
        if !ctx.permits(&payer) {
            return Err(LedgerError::AuthorizationDenied);
        }
        let mut taken = RecurringRegistry { entries: Vec::new() };
        core::mem::swap(self, &mut taken);
        proof {
            use_type_invariant(&taken);
        }
        let mut entries = taken.entries;
        let mut plan = plan;
        plan.last_payment = now;
        put(&mut entries, PlanEntry { payer, plan });
        *self = RecurringRegistry { entries };
        Ok(())
    }

    /// The plan of `payer`, if it has one.
    pub fn plan(&self, payer: &String) -> (res: Option<RecurringPayment>)
        ensures
            match res {
                Some(plan) => plan_of(self@, payer@) == Some(plan@),
                None => plan_of(self@, payer@) is None,
            },
    {
        proof {
            use_type_invariant(self);
        }
        match find(&self.entries, payer) {
            Some(i) => Some(self.entries[i].plan.clone()),
            None => None,
        }
    }

    /// The entire mapping, in registration order. No payer occurs twice
    /// in it.
    pub fn snapshot(&self) -> (res: Vec<PlanEntry>)
        ensures
            entry_views(res@) == self@,
            distinct_payers(self@),
    {
        proof {
            use_type_invariant(self);
        }
        let mut res: Vec<PlanEntry> = Vec::new();
        let mut i: usize = 0;
        while i < self.entries.len()
            invariant
                i <= self.entries@.len(),
                res@.len() == i,
                forall|j: int| 0 <= j < i ==> res@[j] == self.entries@[j],
            decreases self.entries@.len() - i,
        {
            res.push(self.entries[i].clone());
            i = i + 1;
        }
        assert(entry_views(res@) =~= entry_views(self.entries@));
        res
    }

    /// Puts `mapping` in the place of everything the registry held. Of
    /// two entries of one payer the later one stands.
    pub fn replace(&mut self, mapping: Vec<PlanEntry>)
        ensures
            final(self)@ == mapping_of(entry_views(mapping@)),
    {
        let ghost given = entry_views(mapping@);
        let mut entries: Vec<PlanEntry> = Vec::new();
        let mut i: usize = 0;
        assert(entry_views(entries@) =~= mapping_of(given.take(0)));
        while i < mapping.len()
            invariant
                i <= mapping@.len(),
                given == entry_views(mapping@),
                distinct_payers(entry_views(entries@)),
                entry_views(entries@) == mapping_of(given.take(i as int)),
            decreases mapping@.len() - i,
        {
            proof {
                assert(given.take(i + 1).drop_last() =~= given.take(i as int));
                assert(given.take(i + 1).last() == mapping@[i as int]@);
            }
            put(&mut entries, mapping[i].clone());
            i = i + 1;
        }
        assert(given.take(i as int) =~= given);
        *self = RecurringRegistry { entries };
    }
}

} // verus!
