use vstd::prelude::*;
use crate::error::ContractError;
use crate::order::{lex_lt, lemma_lex_lt_irreflexive, lemma_lex_lt_trichotomy,
    lemma_lex_lt_transitive};
use vstd::string::StrSliceExecFns;

verus! {

/// Mathematical image of a campaign configuration.
#[verifier::ext_equal]
pub ghost struct ConfigView {
    pub owner: Seq<char>,
    pub denom: Seq<char>,
    pub goal: u128,
    pub start: u64,
    pub deadline: u64,
    pub name: Seq<char>,
    pub description: Seq<char>,
}

/// Immutable campaign parameters, fixed at creation and never changed by any
/// transition.
#[derive(Clone, Debug)]
pub struct Config {
    /// Identity of the campaign owner.
    pub owner: String,
    /// The one asset denomination the campaign accepts.
    pub denom: String,
    /// Funding goal in the asset's minor unit; always positive.
    pub goal: u128,
    /// Campaign start, in host time units.
    pub start: u64,
    /// Campaign deadline, in host time units; always after `start`.
    pub deadline: u64,
    pub name: String,
    pub description: String,
}

impl View for Config {
    type V = ConfigView;

    open spec fn view(&self) -> ConfigView {
        ConfigView {
            owner: self.owner@,
            denom: self.denom@,
            goal: self.goal,
            start: self.start,
            deadline: self.deadline,
            name: self.name@,
            description: self.description@,
        }
    }
}

/// The creation-time checks, in the order they are applied; the first failing
/// check decides the error.
pub open spec fn validate_model(c: ConfigView) -> Result<(), ContractError> {
    if c.goal == 0 {
        Err(ContractError::GoalZero)
    } else if c.start >= c.deadline {
        Err(ContractError::StartNotBeforeDeadline)
    } else if c.description.len() > 256 {
        Err(ContractError::DescriptionTooLong)
    } else if c.name.len() > 32 {
        Err(ContractError::NameTooLong)
    } else {
        Ok(())
    }
}

/// A configuration all of whose creation-time checks pass.
pub open spec fn config_ok(c: ConfigView) -> bool {
    validate_model(c) == Ok::<(), ContractError>(())
}

impl Config {
    /// Checks the creation-time requirements on the parameters: a positive
    /// goal, a start strictly before the deadline, and bounded text fields.
    pub fn validate(&self) -> (r: Result<(), ContractError>)
        ensures
            r == validate_model(self@),
    {
        if self.goal == 0 {
            return Err(ContractError::GoalZero);
        }
        if self.start >= self.deadline {
            return Err(ContractError::StartNotBeforeDeadline);
        }
        if self.description.as_str().unicode_len() > 256 {
            return Err(ContractError::DescriptionTooLong);
        }
        if self.name.as_str().unicode_len() > 32 {
            return Err(ContractError::NameTooLong);
        }
        Ok(())
    }
}

/// The deferred action slot: at most one pending payload, consumed the first
/// time the trigger operation succeeds and never refilled.
pub enum ActionSlot {
    /// A payload is registered and has not run yet.
    Pending(Vec<u8>),
    /// No payload remains: none was registered, or it has already run.
    Consumed,
}

/// Full campaign state: configuration, funding ledger, running total and the
/// deferred action slot.
pub struct State {
    pub config: Config,
    /// Funding ledger: `(identity, share)` pairs, strictly ascending by
    /// identity, every share positive.
    pub shares: Vec<(String, u128)>,
    /// Aggregate of all ledger shares, maintained alongside the entries.
    pub total_shares: u128,
    pub execute_msg: ActionSlot,
}

/// Mathematical image of the full campaign state.
#[verifier::ext_equal]
pub ghost struct StateView {
    pub config: ConfigView,
    pub ledger: Seq<(Seq<char>, u128)>,
    pub total_shares: u128,
    pub action: Option<Seq<u8>>,
}

/// The views of a list of ledger entries.
pub open spec fn entries_view(s: Seq<(String, u128)>) -> Seq<(Seq<char>, u128)> {
    s.map_values(|e: (String, u128)| (e.0@, e.1))
}

impl View for State {
    type V = StateView;

    open spec fn view(&self) -> StateView {
        StateView {
            config: self.config@,
            ledger: entries_view(self.shares@),
            total_shares: self.total_shares,
            action: match self.execute_msg {
                ActionSlot::Pending(p) => Some(p@),
                ActionSlot::Consumed => None,
            },
        }
    }
}

/// Sum of all recorded shares.
pub open spec fn sum_shares(l: Seq<(Seq<char>, u128)>) -> int
    decreases l.len(),
{
    if l.len() == 0 {
        0
    } else {
        l[0].1 + sum_shares(l.drop_first())
    }
}

/// The share recorded for `k`, if any; entries are scanned front to back, so
/// on a ledger with unique keys this is the one entry for `k`.
pub open spec fn lookup(l: Seq<(Seq<char>, u128)>, k: Seq<char>) -> Option<u128>
    decreases l.len(),
{
    if l.len() == 0 {
        None
    } else if l[0].0 == k {
        Some(l[0].1)
    } else {
        lookup(l.drop_first(), k)
    }
}

/// The ledger after contributing `amt` under `k`: the existing entry grows by
/// `amt`, or a fresh entry is placed at its sorted position.
pub open spec fn upsert(l: Seq<(Seq<char>, u128)>, k: Seq<char>, amt: u128) -> Seq<
    (Seq<char>, u128),
>
    decreases l.len(),
{
    if l.len() == 0 {
        seq![(k, amt)]
    } else if lex_lt(k, l[0].0) {
        seq![(k, amt)] + l
    } else if l[0].0 == k {
        seq![(k, (l[0].1 + amt) as u128)] + l.drop_first()
    } else {
        seq![l[0]] + upsert(l.drop_first(), k, amt)
    }
}

/// The ledger after settling `k`'s entry.
pub open spec fn remove_key(l: Seq<(Seq<char>, u128)>, k: Seq<char>) -> Seq<(Seq<char>, u128)>
    decreases l.len(),
{
    if l.len() == 0 {
        l
    } else if l[0].0 == k {
        l.drop_first()
    } else {
        seq![l[0]] + remove_key(l.drop_first(), k)
    }
}

/// Entries strictly ascending by identity; in particular, keys are unique.
pub open spec fn ledger_sorted(l: Seq<(Seq<char>, u128)>) -> bool {
    forall|i: int, j: int| 0 <= i < j < l.len() ==> lex_lt(l[i].0, l[j].0)
}

/// Every recorded share is positive: settled entries are removed, never left
/// at zero.
pub open spec fn all_positive(l: Seq<(Seq<char>, u128)>) -> bool {
    forall|i: int| 0 <= i < l.len() ==> (#[trigger] l[i]).1 >= 1
}

/// The state invariant: a valid configuration, a strictly sorted ledger of
/// positive shares, and an aggregate equal to the sum of all shares.
pub open spec fn inv(s: StateView) -> bool {
    &&& config_ok(s.config)
    &&& ledger_sorted(s.ledger)
    &&& all_positive(s.ledger)
    &&& s.total_shares as int == sum_shares(s.ledger)
}

impl State {
    /// Well-formedness of the executable state.
    pub open spec fn wf(&self) -> bool {
        inv(self@)
    }

    /// Decides well-formedness, for a state loaded from untrusted storage: a
    /// valid configuration, strictly ascending identities, positive shares,
    /// and an aggregate equal to the sum of all shares.
    pub fn is_well_formed(&self) -> (r: bool)
        ensures
            r == self.wf(),
    {
        if self.config.validate().is_err() {
            return false;
        }
        let ghost s0 = self.shares@;
        let ghost l0 = self@.ledger;
        proof {
            assert(forall|j: int| 0 <= j < s0.len() ==> l0[j] == ((#[trigger] s0[j]).0@, s0[j].1));
        }
        let n = self.shares.len();
        let mut sum: u128 = 0;
        let mut i: usize = 0;
        loop
            invariant
                n == s0.len(),
                s0 == self.shares@,
                l0 == self@.ledger,
                l0.len() == n,
                forall|j: int| 0 <= j < s0.len() ==> l0[j] == ((#[trigger] s0[j]).0@, s0[j].1),
                0 <= i <= n,
                sum as int == sum_shares(l0.take(i as int)),
                forall|p: int| 0 <= p < i ==> (#[trigger] l0[p]).1 >= 1,
                forall|p: int| 0 <= p < i && p + 1 < n ==> lex_lt(
                    (#[trigger] l0[p]).0,
                    l0[p + 1].0,
                ),
            ensures
                i == n,
                sum as int == sum_shares(l0.take(i as int)),
                forall|p: int| 0 <= p < i ==> (#[trigger] l0[p]).1 >= 1,
                forall|p: int| 0 <= p < i && p + 1 < n ==> lex_lt(
                    (#[trigger] l0[p]).0,
                    l0[p + 1].0,
                ),
            decreases n - i,
        {
            if i >= n {
                break;
            }
            let share = self.shares[i].1;
            if share == 0 {
                proof {
                    assert((l0[i as int]).1 == 0);
                    assert(!all_positive(l0));
                }
                return false;
            }
            if i + 1 < n {
                if !crate::order::str_lt(
                    self.shares[i].0.as_str(),
                    self.shares[i + 1].0.as_str(),
                ) {
                    proof {
                        assert(!lex_lt(l0[i as int].0, l0[i as int + 1].0));
                        assert(!ledger_sorted(l0));
                    }
                    return false;
                }
            }
            sum = match sum.checked_add(share) {
                Some(s) => s,
                None => {
                    proof {
                        lemma_sum_split(l0, i as int + 1);
                        lemma_sum_nonneg(l0.skip(i as int + 1));
                        assert(l0.take(i as int + 1).take(i as int) =~= l0.take(i as int));
                        assert(l0.take(i as int + 1).skip(i as int) =~= seq![l0[i as int]]);
                        lemma_sum_split(l0.take(i as int + 1), i as int);
                        assert(sum_shares(seq![l0[i as int]]) == l0[i as int].1) by {
                            assert(seq![l0[i as int]].drop_first() =~= Seq::<
                                (Seq<char>, u128),
                            >::empty());
                            assert(sum_shares(Seq::<(Seq<char>, u128)>::empty()) == 0);
                        }
                        assert(sum_shares(l0) > u128::MAX);
                    }
                    return false;
                },
            };
            proof {
                lemma_sum_split(l0, i as int + 1);
                assert(l0.take(i as int + 1).take(i as int) =~= l0.take(i as int));
                assert(l0.take(i as int + 1).skip(i as int) =~= seq![l0[i as int]]);
                lemma_sum_split(l0.take(i as int + 1), i as int);
                assert(sum_shares(seq![l0[i as int]]) == l0[i as int].1) by {
                    assert(seq![l0[i as int]].drop_first() =~= Seq::<(Seq<char>, u128)>::empty());
                    assert(sum_shares(Seq::<(Seq<char>, u128)>::empty()) == 0);
                }
            }
            i += 1;
        }
        proof {
            assert(l0.take(n as int) =~= l0);
            lemma_adjacent_sorted(l0);
        }
        sum == self.total_shares
    }
}

proof fn lemma_lt_span(l: Seq<(Seq<char>, u128)>, i: int, j: int)
    requires
        forall|p: int| 0 <= p < l.len() - 1 ==> lex_lt((#[trigger] l[p]).0, l[p + 1].0),
        0 <= i < j < l.len(),
    ensures
        lex_lt(l[i].0, l[j].0),
    decreases j - i,
{
    if j > i + 1 {
        lemma_lt_span(l, i, j - 1);
        lemma_lex_lt_transitive(l[i].0, l[j - 1].0, l[j].0);
    }
}

/// A ledger whose adjacent entries ascend is sorted throughout.
pub proof fn lemma_adjacent_sorted(l: Seq<(Seq<char>, u128)>)
    requires
        forall|p: int| 0 <= p < l.len() - 1 ==> lex_lt((#[trigger] l[p]).0, l[p + 1].0),
    ensures
        ledger_sorted(l),
{
    assert forall|i: int, j: int| 0 <= i < j < l.len() implies lex_lt(l[i].0, l[j].0) by {
        lemma_lt_span(l, i, j);
    }
}

pub proof fn lemma_sum_nonneg(l: Seq<(Seq<char>, u128)>)
    ensures
        sum_shares(l) >= 0,
    decreases l.len(),
{
    if l.len() > 0 {
        lemma_sum_nonneg(l.drop_first());
    }
}

/// A single entry never exceeds the aggregate.
pub proof fn lemma_entry_le_sum(l: Seq<(Seq<char>, u128)>, i: int)
    requires
        0 <= i < l.len(),
    ensures
        l[i].1 <= sum_shares(l),
    decreases l.len(),
{
    lemma_sum_nonneg(l.drop_first());
    if i > 0 {
        lemma_entry_le_sum(l.drop_first(), i - 1);
    }
}

/// A recorded share never exceeds the aggregate.
pub proof fn lemma_lookup_le_sum(l: Seq<(Seq<char>, u128)>, k: Seq<char>)
    requires
        lookup(l, k) is Some,
    ensures
        lookup(l, k)->Some_0 <= sum_shares(l),
    decreases l.len(),
{
    lemma_sum_nonneg(l.drop_first());
    if l.len() > 0 && l[0].0 != k {
        lemma_lookup_le_sum(l.drop_first(), k);
    }
}

/// A recorded key has a first index in the ledger: the entry `lookup` reads,
/// with no earlier entry under the same key.
pub proof fn lemma_lookup_first_index(l: Seq<(Seq<char>, u128)>, k: Seq<char>)
    requires
        lookup(l, k) is Some,
    ensures
        exists|i: int|
            0 <= i < l.len() && (#[trigger] l[i]).0 == k && l[i].1 == lookup(l, k)->Some_0
                && forall|j: int| 0 <= j < i ==> (#[trigger] l[j]).0 != k,
    decreases l.len(),
{
    if l[0].0 == k {
        assert(0 <= 0 < l.len() && (l[0]).0 == k && l[0].1 == lookup(l, k)->Some_0 && forall|
            j: int,
        | 0 <= j < 0 ==> (#[trigger] l[j]).0 != k);
    } else {
        let rest = l.drop_first();
        lemma_lookup_first_index(rest, k);
        let i0 = choose|i: int|
            0 <= i < rest.len() && (#[trigger] rest[i]).0 == k && rest[i].1 == lookup(
                rest,
                k,
            )->Some_0 && forall|j: int| 0 <= j < i ==> (#[trigger] rest[j]).0 != k;
        assert(forall|j: int| 0 <= j < i0 + 1 ==> (#[trigger] l[j]).0 != k) by {
            assert(forall|j: int| 1 <= j < i0 + 1 ==> l[j] == rest[j - 1]);
        }
        assert(0 <= i0 + 1 < l.len() && (l[i0 + 1]).0 == k && l[i0 + 1].1 == lookup(
            l,
            k,
        )->Some_0 && forall|j: int| 0 <= j < i0 + 1 ==> (#[trigger] l[j]).0 != k);
    }
}

/// `lookup` finds the entry at the first index whose key matches.
pub proof fn lemma_lookup_at(l: Seq<(Seq<char>, u128)>, k: Seq<char>, i: int)
    requires
        0 <= i < l.len(),
        l[i].0 == k,
        forall|j: int| 0 <= j < i ==> (#[trigger] l[j]).0 != k,
    ensures
        lookup(l, k) == Some(l[i].1),
    decreases i,
{
    if i > 0 {
        assert(forall|j: int|
            0 <= j < i - 1 ==> (#[trigger] l.drop_first()[j]).0 != k);
        lemma_lookup_at(l.drop_first(), k, i - 1);
    }
}

/// A key that matches no entry is not recorded.
pub proof fn lemma_lookup_none(l: Seq<(Seq<char>, u128)>, k: Seq<char>)
    requires
        forall|j: int| 0 <= j < l.len() ==> (#[trigger] l[j]).0 != k,
    ensures
        lookup(l, k) is None,
    decreases l.len(),
{
    if l.len() > 0 {
        assert(forall|j: int|
            0 <= j < l.drop_first().len() ==> (#[trigger] l.drop_first()[j]).0 != k);
        lemma_lookup_none(l.drop_first(), k);
    }
}

/// `remove_key` removes exactly the entry at the first matching index.
pub proof fn lemma_remove_at(l: Seq<(Seq<char>, u128)>, k: Seq<char>, i: int)
    requires
        0 <= i < l.len(),
        l[i].0 == k,
        forall|j: int| 0 <= j < i ==> (#[trigger] l[j]).0 != k,
    ensures
        remove_key(l, k) == l.remove(i),
    decreases i,
{
    if i == 0 {
        assert(l.drop_first() =~= l.remove(0));
    } else {
        assert(forall|j: int|
            0 <= j < i - 1 ==> (#[trigger] l.drop_first()[j]).0 != k);
        lemma_remove_at(l.drop_first(), k, i - 1);
        assert(seq![l[0]] + l.drop_first().remove(i - 1) =~= l.remove(i));
    }
}

pub proof fn lemma_sum_remove(l: Seq<(Seq<char>, u128)>, i: int)
    requires
        0 <= i < l.len(),
    ensures
        sum_shares(l.remove(i)) == sum_shares(l) - l[i].1,
    decreases i,
{
    if i == 0 {
        assert(l.remove(0) =~= l.drop_first());
    } else {
        assert(l.remove(i).drop_first() =~= l.drop_first().remove(i - 1));
        assert(l.remove(i)[0] == l[0]);
        lemma_sum_remove(l.drop_first(), i - 1);
    }
}

pub proof fn lemma_sum_update(l: Seq<(Seq<char>, u128)>, i: int, v: (Seq<char>, u128))
    requires
        0 <= i < l.len(),
    ensures
        sum_shares(l.update(i, v)) == sum_shares(l) - l[i].1 + v.1,
    decreases i,
{
    if i == 0 {
        assert(l.update(0, v).drop_first() =~= l.drop_first());
        assert(l.update(0, v)[0] == v);
    } else {
        assert(l.update(i, v).drop_first() =~= l.drop_first().update(i - 1, v));
        assert(l.update(i, v)[0] == l[0]);
        lemma_sum_update(l.drop_first(), i - 1, v);
    }
}

pub proof fn lemma_sum_insert(l: Seq<(Seq<char>, u128)>, i: int, v: (Seq<char>, u128))
    requires
        0 <= i <= l.len(),
    ensures
        sum_shares(l.insert(i, v)) == sum_shares(l) + v.1,
    decreases i,
{
    if i == 0 {
        assert(l.insert(0, v).drop_first() =~= l);
        assert(l.insert(0, v)[0] == v);
    } else {
        assert(l.insert(i, v).drop_first() =~= l.drop_first().insert(i - 1, v));
        assert(l.insert(i, v)[0] == l[0]);
        lemma_sum_insert(l.drop_first(), i - 1, v);
    }
}

/// On a sorted ledger, `upsert` updates in place at the first index not below
/// the key, or inserts there.
pub proof fn lemma_upsert_at(l: Seq<(Seq<char>, u128)>, k: Seq<char>, a: u128, i: int)
    requires
        ledger_sorted(l),
        0 <= i <= l.len(),
        forall|j: int| 0 <= j < i ==> lex_lt((#[trigger] l[j]).0, k),
        i < l.len() ==> !lex_lt(l[i].0, k),
    ensures
        i < l.len() && l[i].0 == k ==> upsert(l, k, a) == l.update(
            i,
            (k, (l[i].1 + a) as u128),
        ),
        !(i < l.len() && l[i].0 == k) ==> upsert(l, k, a) == l.insert(i, (k, a)),
    decreases i,
{
    if l.len() == 0 {
        assert(upsert(l, k, a) =~= l.insert(0, (k, a)));
    } else if i == 0 {
        if l[0].0 == k {
            lemma_lex_lt_irreflexive(k);
            assert(upsert(l, k, a) =~= l.update(0, (k, (l[0].1 + a) as u128)));
        } else {
            lemma_lex_lt_trichotomy(k, l[0].0);
            assert(upsert(l, k, a) =~= l.insert(0, (k, a)));
        }
    } else {
        crate::order::lemma_lex_lt_asymmetric(l[0].0, k);
        lemma_lex_lt_irreflexive(k);
        assert(l[0].0 != k);
        let rest = l.drop_first();
        assert(forall|x: int, y: int|
            0 <= x < y < rest.len() ==> lex_lt(#[trigger] rest[x].0, #[trigger] rest[y].0)) by {
            assert(forall|x: int| 0 <= x < rest.len() ==> rest[x] == l[x + 1]);
        }
        assert(forall|j: int| 0 <= j < i - 1 ==> lex_lt((#[trigger] rest[j]).0, k)) by {
            assert(forall|x: int| 0 <= x < rest.len() ==> rest[x] == l[x + 1]);
        }
        assert(i - 1 < rest.len() ==> !lex_lt(rest[i - 1].0, k));
        lemma_upsert_at(rest, k, a, i - 1);
        if i < l.len() && l[i].0 == k {
            assert(seq![l[0]] + rest.update(i - 1, (k, (l[i].1 + a) as u128)) =~= l.update(
                i,
                (k, (l[i].1 + a) as u128),
            ));
        } else {
            assert(seq![l[0]] + rest.insert(i - 1, (k, a)) =~= l.insert(i, (k, a)));
        }
    }
}

/// Inserting a fresh key at its sorted position keeps the ledger sorted and
/// its shares positive.
pub proof fn lemma_insert_keeps_inv(l: Seq<(Seq<char>, u128)>, i: int, k: Seq<char>, a: u128)
    requires
        ledger_sorted(l),
        all_positive(l),
        a >= 1,
        0 <= i <= l.len(),
        forall|j: int| 0 <= j < i ==> lex_lt((#[trigger] l[j]).0, k),
        i < l.len() ==> lex_lt(k, l[i].0),
    ensures
        ledger_sorted(l.insert(i, (k, a))),
        all_positive(l.insert(i, (k, a))),
{
    let l1 = l.insert(i, (k, a));
    assert forall|x: int, y: int|
        0 <= x < y < l1.len() implies lex_lt(#[trigger] l1[x].0, #[trigger] l1[y].0) by {
        if x < i && y < i {
        } else if x < i && y == i {
        } else if x < i && y > i {
        } else if x == i && y > i {
            if y - 1 > i {
                lemma_lex_lt_transitive(k, l[i].0, l[y - 1].0);
            }
        }
    }
    assert forall|x: int| 0 <= x < l1.len() implies (#[trigger] l1[x]).1 >= 1 by {
        if x < i {
            assert(l[x].1 >= 1);
        } else if x > i {
            assert(l[x - 1].1 >= 1);
        }
    }
}

/// Growing the share under an existing key keeps the ledger sorted and its
/// shares positive.
pub proof fn lemma_update_keeps_inv(l: Seq<(Seq<char>, u128)>, i: int, k: Seq<char>, a: u128)
    requires
        ledger_sorted(l),
        all_positive(l),
        a >= 1,
        0 <= i < l.len(),
        l[i].0 == k,
    ensures
        ledger_sorted(l.update(i, (k, a))),
        all_positive(l.update(i, (k, a))),
{
    let l1 = l.update(i, (k, a));
    assert forall|x: int, y: int|
        0 <= x < y < l1.len() implies lex_lt(#[trigger] l1[x].0, #[trigger] l1[y].0) by {
        assert(l1[x].0 == l[x].0);
        assert(l1[y].0 == l[y].0);
    }
    assert forall|x: int| 0 <= x < l1.len() implies (#[trigger] l1[x]).1 >= 1 by {
        if x != i {
            assert(l1[x] == l[x]);
        }
    }
}

/// Removing one entry keeps the ledger sorted and its shares positive, and
/// no entry for the removed key remains.
pub proof fn lemma_remove_keeps_inv(l: Seq<(Seq<char>, u128)>, i: int)
    requires
        ledger_sorted(l),
        all_positive(l),
        0 <= i < l.len(),
    ensures
        ledger_sorted(l.remove(i)),
        all_positive(l.remove(i)),
        lookup(l.remove(i), l[i].0) is None,
{
    let l1 = l.remove(i);
    assert forall|x: int, y: int|
        0 <= x < y < l1.len() implies lex_lt(#[trigger] l1[x].0, #[trigger] l1[y].0) by {
        let x0: int = if x < i { x } else { x + 1 };
        let y0: int = if y < i { y } else { y + 1 };
        assert(l1[x] == l[x0]);
        assert(l1[y] == l[y0]);
    }
    assert forall|x: int| 0 <= x < l1.len() implies (#[trigger] l1[x]).1 >= 1 by {
        let x0: int = if x < i { x } else { x + 1 };
        assert(l1[x] == l[x0]);
    }
    assert forall|x: int| 0 <= x < l1.len() implies (#[trigger] l1[x]).0 != l[i].0 by {
        let x0: int = if x < i { x } else { x + 1 };
        assert(l1[x] == l[x0]);
        if x0 < i {
            lemma_lex_lt_irreflexive(l[i].0);
        } else {
            lemma_lex_lt_irreflexive(l[i].0);
        }
    }
    lemma_lookup_none(l1, l[i].0);
}

/// Dropping a prefix keeps the ledger sorted and its shares positive.
pub proof fn lemma_skip_keeps_inv(l: Seq<(Seq<char>, u128)>, n: int)
    requires
        ledger_sorted(l),
        all_positive(l),
        0 <= n <= l.len(),
    ensures
        ledger_sorted(l.skip(n)),
        all_positive(l.skip(n)),
{
    let l1 = l.skip(n);
    assert forall|x: int, y: int|
        0 <= x < y < l1.len() implies lex_lt(#[trigger] l1[x].0, #[trigger] l1[y].0) by {
        assert(l1[x] == l[x + n]);
        assert(l1[y] == l[y + n]);
    }
    assert forall|x: int| 0 <= x < l1.len() implies (#[trigger] l1[x]).1 >= 1 by {
        assert(l1[x] == l[x + n]);
    }
}

/// The sum splits around any cut point.
pub proof fn lemma_sum_split(l: Seq<(Seq<char>, u128)>, n: int)
    requires
        0 <= n <= l.len(),
    ensures
        sum_shares(l) == sum_shares(l.take(n)) + sum_shares(l.skip(n)),
    decreases n,
{
    if n == 0 {
        assert(l.take(0) =~= Seq::<(Seq<char>, u128)>::empty());
        assert(l.skip(0) =~= l);
    } else {
        assert(l.take(n).drop_first() =~= l.drop_first().take(n - 1));
        assert(l.skip(n) =~= l.drop_first().skip(n - 1));
        assert(l.take(n)[0] == l[0]);
        lemma_sum_split(l.drop_first(), n - 1);
    }
}

} // verus!
