//! Vectors of coins and of decimal coins, keyed by denomination, and how funds are merged
//! into them.

use vstd::prelude::*;
use vstd::std_specs::cmp::PartialEqSpecImpl;
use crate::math::{Decimal, spec_floor, spec_mul, decimal_multiplication_in_256,
    decimal_subtraction_in_256, uint128_from_decimal};

verus! {

/// An amount of one denomination.
#[derive(Debug, Eq)]
pub struct Coin {
    pub denom: String,
    pub amount: u128,
}

impl Clone for Coin {
    fn clone(&self) -> (r: Self)
        ensures
            r == *self,
    {
        Coin { denom: self.denom.clone(), amount: self.amount }
    }
}

/// Two coins are equal when they have the same denomination and amount.
impl PartialEq for Coin {
    fn eq(&self, other: &Self) -> (r: bool) {
        self.denom == other.denom && self.amount == other.amount
    }
}

impl PartialEqSpecImpl for Coin {
    open spec fn obeys_eq_spec() -> bool {
        true
    }

    open spec fn eq_spec(&self, other: &Coin) -> bool {
        self.denom@ == other.denom@ && self.amount == other.amount
    }
}

impl Coin {
    pub fn new(amount: u128, denom: String) -> (r: Coin)
        ensures
            r.amount == amount,
            r.denom == denom,
    {
        Coin { denom, amount }
    }
}

/// A decimal amount of one denomination.
#[derive(Debug, Eq)]
pub struct DecCoin {
    pub denom: String,
    pub amount: Decimal,
}

impl Clone for DecCoin {
    fn clone(&self) -> (r: Self)
        ensures
            r == *self,
    {
        DecCoin { denom: self.denom.clone(), amount: self.amount }
    }
}

/// Two decimal coins are equal when they have the same denomination and amount.
impl PartialEq for DecCoin {
    fn eq(&self, other: &Self) -> (r: bool) {
        self.denom == other.denom && self.amount.atomics == other.amount.atomics
    }
}

impl PartialEqSpecImpl for DecCoin {
    open spec fn obeys_eq_spec() -> bool {
        true
    }

    open spec fn eq_spec(&self, other: &DecCoin) -> bool {
        self.denom@ == other.denom@ && self.amount == other.amount
    }
}

impl DecCoin {
    pub fn new(amount: Decimal, denom: String) -> (r: DecCoin)
        ensures
            r.amount == amount,
            r.denom == denom,
    {
        DecCoin { denom, amount }
    }
}

/// Whether funds are added to or taken from a coin vector.
#[derive(Clone, Copy, Debug, PartialEq, Eq, Structural)]
pub enum Operation {
    Add,
    Sub,
}

pub struct CoinVecOp {
    pub fund: Vec<Coin>,
    pub operation: Operation,
}

pub struct DecCoinVecOp {
    pub fund: Vec<DecCoin>,
    pub operation: Operation,
}

/// A coin vector seen as (denomination, amount) entries.
pub open spec fn coin_entries(s: Seq<Coin>) -> Seq<(Seq<char>, int)> {
    s.map_values(|c: Coin| (c.denom@, c.amount as int))
}

/// A decimal coin vector seen as (denomination, atomics) entries.
pub open spec fn dec_coin_entries(s: Seq<DecCoin>) -> Seq<(Seq<char>, int)> {
    s.map_values(|c: DecCoin| (c.denom@, c.amount.atomics as int))
}

/// The total held of denomination `d` over all entries.
pub open spec fn entry_amount(e: Seq<(Seq<char>, int)>, d: Seq<char>) -> int
    decreases e.len(),
{
    if e.len() == 0 {
        0
    } else {
        entry_amount(e.drop_last(), d) + if e.last().0 == d {
            e.last().1
        } else {
            0
        }
    }
}

/// No denomination occurs twice.
pub open spec fn entries_unique(e: Seq<(Seq<char>, int)>) -> bool {
    forall|i: int, j: int| 0 <= i < j < e.len() ==> e[i].0 != e[j].0
}

/// Some entry has denomination `d`.
pub open spec fn entries_have(e: Seq<(Seq<char>, int)>, d: Seq<char>) -> bool {
    exists|i: int| 0 <= i < e.len() && e[i].0 == d
}

/// Every amount is non-negative.
pub open spec fn entries_nonneg(e: Seq<(Seq<char>, int)>) -> bool {
    forall|i: int| 0 <= i < e.len() ==> e[i].1 >= 0
}

/// The amount of `d` in a coin vector.
pub open spec fn coin_amount(s: Seq<Coin>, d: Seq<char>) -> int {
    entry_amount(coin_entries(s), d)
}

/// The atomics of `d` in a decimal coin vector.
pub open spec fn dec_coin_amount(s: Seq<DecCoin>, d: Seq<char>) -> int {
    entry_amount(dec_coin_entries(s), d)
}

pub open spec fn coins_unique(s: Seq<Coin>) -> bool {
    entries_unique(coin_entries(s))
}

pub open spec fn dec_coins_unique(s: Seq<DecCoin>) -> bool {
    entries_unique(dec_coin_entries(s))
}

pub open spec fn coins_have(s: Seq<Coin>, d: Seq<char>) -> bool {
    entries_have(coin_entries(s), d)
}

pub open spec fn dec_coins_have(s: Seq<DecCoin>, d: Seq<char>) -> bool {
    entries_have(dec_coin_entries(s), d)
}

/// The amount after `delta` was added or taken away.
pub open spec fn apply_op(old: int, delta: int, op: Operation) -> int {
    match op {
        Operation::Add => old + delta,
        Operation::Sub => old - delta,
    }
}

/// Whether merging `fund` into `coins` stays within 128 bits and above zero for every
/// denomination.
pub open spec fn merge_in_range(
    coins: Seq<(Seq<char>, int)>,
    fund: Seq<(Seq<char>, int)>,
    op: Operation,
) -> bool {
    forall|d: Seq<char>|
        0 <= #[trigger] apply_op(entry_amount(coins, d), entry_amount(fund, d), op) <= u128::MAX
}

/// The result of merging `fund` into `coins`: denominations stay unique, the amount of every
/// denomination is the old amount with the fund's amount of it added or taken away, and the
/// denominations are exactly those of both vectors.
pub open spec fn merged(
    result: Seq<(Seq<char>, int)>,
    coins: Seq<(Seq<char>, int)>,
    fund: Seq<(Seq<char>, int)>,
    op: Operation,
) -> bool {
    &&& entries_unique(result)
    &&& forall|d: Seq<char>|
        #[trigger] entry_amount(result, d) == apply_op(entry_amount(coins, d), entry_amount(fund, d), op)
    &&& forall|d: Seq<char>|
        #[trigger] entries_have(result, d) <==> entries_have(coins, d) || entries_have(fund, d)
}

/// The position of the entry of denomination `d` (where there is one).
pub open spec fn entry_index(e: Seq<(Seq<char>, int)>, d: Seq<char>) -> int {
    choose|i: int| 0 <= i < e.len() && e[i].0 == d
}

/// One fund entry merged into entries: the entry of its denomination changed by its amount, or
/// a new entry appended.
pub open spec fn merge_entry(e: Seq<(Seq<char>, int)>, x: (Seq<char>, int), op: Operation) -> Seq<(Seq<char>, int)> {
    if entries_have(e, x.0) {
        let k = entry_index(e, x.0);
        e.update(k, (x.0, apply_op(e[k].1, x.1, op)))
    } else {
        e.push((x.0, apply_op(0, x.1, op)))
    }
}

/// The fund's entries merged into `e` one after the other: denominations already present keep
/// their place, new ones are appended in the order they first come in the fund.
pub open spec fn merge_entries(e: Seq<(Seq<char>, int)>, fund: Seq<(Seq<char>, int)>, op: Operation) -> Seq<(Seq<char>, int)>
    decreases fund.len(),
{
    if fund.len() == 0 {
        e
    } else {
        merge_entry(merge_entries(e, fund.drop_last(), op), fund.last(), op)
    }
}

/// Merging two funds one after the other is merging them joined.
pub proof fn lemma_merge_entries_concat(e: Seq<(Seq<char>, int)>, a: Seq<(Seq<char>, int)>, b: Seq<(Seq<char>, int)>, op: Operation)
    ensures
        merge_entries(merge_entries(e, a, op), b, op) == merge_entries(e, a + b, op),
    decreases b.len(),
{
    if b.len() == 0 {
        assert(a + b =~= a);
    } else {
        lemma_merge_entries_concat(e, a, b.drop_last(), op);
        assert((a + b).drop_last() =~= a + b.drop_last());
        assert((a + b).last() == b.last());
    }
}

/// Adding the entries of a list without repeated denominations to nothing gives that list back.
pub proof fn lemma_merge_entries_into_empty(e: Seq<(Seq<char>, int)>)
    requires
        entries_unique(e),
    ensures
        merge_entries(Seq::empty(), e, Operation::Add) == e,
    decreases e.len(),
{
    if e.len() > 0 {
        let p = e.drop_last();
        let x = e.last();
        assert(entries_unique(p));
        lemma_merge_entries_into_empty(p);
        assert(!entries_have(p, x.0)) by {
            if entries_have(p, x.0) {
                let i = choose|i: int| 0 <= i < p.len() && p[i].0 == x.0;
                assert(e[i].0 != e[e.len() - 1].0);
            }
        }
        assert(p.push((x.0, apply_op(0, x.1, Operation::Add))) =~= e);
    }
}

/// Merging changes the amount of every denomination by the fund's amount of it, and keeps the
/// denominations of both lists.
pub proof fn lemma_merge_entries_amounts(e: Seq<(Seq<char>, int)>, f: Seq<(Seq<char>, int)>, op: Operation, d: Seq<char>)
    ensures
        entry_amount(merge_entries(e, f, op), d) == apply_op(entry_amount(e, d), entry_amount(f, d), op),
        entries_have(merge_entries(e, f, op), d) <==> entries_have(e, d) || entries_have(f, d),
    decreases f.len(),
{
    if f.len() > 0 {
        let p = f.drop_last();
        let x = f.last();
        let m = merge_entries(e, p, op);
        lemma_merge_entries_amounts(e, p, op, d);
        assert(entries_have(f, d) <==> entries_have(p, d) || x.0 == d) by {
            if entries_have(f, d) {
                let i = choose|i: int| 0 <= i < f.len() && f[i].0 == d;
                if i < p.len() {
                    assert(p[i].0 == d);
                }
            }
            if entries_have(p, d) {
                let i = choose|i: int| 0 <= i < p.len() && p[i].0 == d;
                assert(f[i].0 == d);
            }
            if x.0 == d {
                assert(f[f.len() - 1].0 == d);
            }
        }
        if entries_have(m, x.0) {
            let k = entry_index(m, x.0);
            let v = apply_op(m[k].1, x.1, op);
            let r = m.update(k, (x.0, v));
            lemma_entry_amount_update(m, k, v, d);
            assert(entries_have(r, d) <==> entries_have(m, d)) by {
                if entries_have(r, d) {
                    let i = choose|i: int| 0 <= i < r.len() && r[i].0 == d;
                    assert(m[i].0 == d);
                }
                if entries_have(m, d) {
                    let i = choose|i: int| 0 <= i < m.len() && m[i].0 == d;
                    assert(r[i].0 == d);
                }
            }
        } else {
            let y = (x.0, apply_op(0, x.1, op));
            let r = m.push(y);
            lemma_entry_amount_push(m, y, d);
            assert(entries_have(r, d) <==> entries_have(m, d) || x.0 == d) by {
                if entries_have(r, d) {
                    let i = choose|i: int| 0 <= i < r.len() && r[i].0 == d;
                    if i < m.len() {
                        assert(m[i].0 == d);
                    }
                }
                if entries_have(m, d) {
                    let i = choose|i: int| 0 <= i < m.len() && m[i].0 == d;
                    assert(r[i].0 == d);
                }
                if x.0 == d {
                    assert(r[r.len() - 1].0 == d);
                }
            }
        }
    }
}

/// In a unique entry list, the entry of a denomination is the one at `k`.
pub proof fn lemma_entry_index_unique(e: Seq<(Seq<char>, int)>, k: int)
    requires
        entries_unique(e),
        0 <= k < e.len(),
    ensures
        entries_have(e, e[k].0),
        entry_index(e, e[k].0) == k,
{
    let d = e[k].0;
    assert(e[k].0 == d);
    let i = entry_index(e, d);
    if i != k {
        if i < k {
            assert(e[i].0 != e[k].0);
        } else {
            assert(e[k].0 != e[i].0);
        }
    }
}

pub proof fn lemma_entry_amount_push(e: Seq<(Seq<char>, int)>, x: (Seq<char>, int), d: Seq<char>)
    ensures
        entry_amount(e.push(x), d) == entry_amount(e, d) + if x.0 == d {
            x.1
        } else {
            0
        },
{
    assert(e.push(x).drop_last() =~= e);
}

pub proof fn lemma_entry_amount_absent(e: Seq<(Seq<char>, int)>, d: Seq<char>)
    requires
        !entries_have(e, d),
    ensures
        entry_amount(e, d) == 0,
    decreases e.len(),
{
    if e.len() > 0 {
        assert(!entries_have(e.drop_last(), d)) by {
            if entries_have(e.drop_last(), d) {
                let i = choose|i: int| #![auto] 0 <= i < e.drop_last().len() && e.drop_last()[i].0 == d;
                assert(e[i].0 == d);
            }
        }
        lemma_entry_amount_absent(e.drop_last(), d);
        assert(e.last().0 != d) by {
            if e.last().0 == d {
                assert(e[e.len() - 1].0 == d);
            }
        }
    }
}

pub proof fn lemma_entry_amount_update(e: Seq<(Seq<char>, int)>, k: int, v: int, d: Seq<char>)
    requires
        0 <= k < e.len(),
    ensures
        entry_amount(e.update(k, (e[k].0, v)), d) == entry_amount(e, d) + if e[k].0 == d {
            v - e[k].1
        } else {
            0
        },
    decreases e.len(),
{
    let u = e.update(k, (e[k].0, v));
    if k == e.len() - 1 {
        assert(u.drop_last() =~= e.drop_last());
    } else {
        assert(u.drop_last() =~= e.drop_last().update(k, (e[k].0, v)));
        lemma_entry_amount_update(e.drop_last(), k, v, d);
    }
}

pub proof fn lemma_entry_amount_unique(e: Seq<(Seq<char>, int)>, k: int)
    requires
        entries_unique(e),
        0 <= k < e.len(),
    ensures
        entry_amount(e, e[k].0) == e[k].1,
    decreases e.len(),
{
    let d = e[k].0;
    if k == e.len() - 1 {
        assert(!entries_have(e.drop_last(), d)) by {
            if entries_have(e.drop_last(), d) {
                let i = choose|i: int| #![auto] 0 <= i < e.drop_last().len() && e.drop_last()[i].0 == d;
                assert(e[i].0 == e[k].0);
            }
        }
        lemma_entry_amount_absent(e.drop_last(), d);
    } else {
        assert(entries_unique(e.drop_last()));
        lemma_entry_amount_unique(e.drop_last(), k);
        assert(e.last().0 != d) by {
            assert(e[k].0 != e[e.len() - 1].0);
        }
    }
}

pub proof fn lemma_entry_amount_nonneg(e: Seq<(Seq<char>, int)>, d: Seq<char>)
    requires
        entries_nonneg(e),
    ensures
        entry_amount(e, d) >= 0,
    decreases e.len(),
{
    if e.len() > 0 {
        assert(entries_nonneg(e.drop_last()));
        lemma_entry_amount_nonneg(e.drop_last(), d);
        assert(e[e.len() - 1].1 >= 0);
    }
}

/// The amounts of a prefix never exceed those of the whole.
pub proof fn lemma_entry_amount_prefix(e: Seq<(Seq<char>, int)>, j: int, d: Seq<char>)
    requires
        entries_nonneg(e),
        0 <= j <= e.len(),
    ensures
        0 <= entry_amount(e.take(j), d) <= entry_amount(e, d),
    decreases e.len(),
{
    if j == e.len() {
        assert(e.take(j) =~= e);
        lemma_entry_amount_nonneg(e, d);
    } else {
        assert(e.drop_last().take(j) =~= e.take(j));
        assert(entries_nonneg(e.drop_last()));
        lemma_entry_amount_prefix(e.drop_last(), j, d);
        assert(e[e.len() - 1].1 >= 0);
    }
}

pub proof fn lemma_entry_amount_take_step(e: Seq<(Seq<char>, int)>, j: int, d: Seq<char>)
    requires
        0 <= j < e.len(),
    ensures
        entry_amount(e.take(j + 1), d) == entry_amount(e.take(j), d) + if e[j].0 == d {
            e[j].1
        } else {
            0
        },
{
    assert(e.take(j + 1).drop_last() =~= e.take(j));
}

/// Index of the coin of denomination `denom`, if there is one.
pub fn find_coin(coins: &Vec<Coin>, denom: &String) -> (r: Option<usize>)
    ensures
        match r {
            Some(k) => k < coins.len() && coins@[k as int].denom@ == denom@,
            None => !coins_have(coins@, denom@),
        },
{
    let mut i: usize = 0;
    while i < coins.len()
        invariant
            i <= coins.len(),
            forall|j: int| 0 <= j < i ==> coins@[j].denom@ != denom@,
        decreases coins.len() - i,
    {
        if coins[i].denom == *denom {
            return Some(i);
        }
        i = i + 1;
    }
    proof {
        if coins_have(coins@, denom@) {
            let j = choose|j: int| #![auto]
                0 <= j < coin_entries(coins@).len() && coin_entries(coins@)[j].0 == denom@;
            assert(coins@[j].denom@ == denom@);
        }
    }
    None
}

/// Index of the decimal coin of denomination `denom`, if there is one.
pub fn find_dec_coin(coins: &Vec<DecCoin>, denom: &String) -> (r: Option<usize>)
    ensures
        match r {
            Some(k) => k < coins.len() && coins@[k as int].denom@ == denom@,
            None => !dec_coins_have(coins@, denom@),
        },
{
    let mut i: usize = 0;
    while i < coins.len()
        invariant
            i <= coins.len(),
            forall|j: int| 0 <= j < i ==> coins@[j].denom@ != denom@,
        decreases coins.len() - i,
    {
        if coins[i].denom == *denom {
            return Some(i);
        }
        i = i + 1;
    }
    proof {
        if dec_coins_have(coins@, denom@) {
            let j = choose|j: int| #![auto]
                0 <= j < dec_coin_entries(coins@).len() && dec_coin_entries(coins@)[j].0 == denom@;
            assert(coins@[j].denom@ == denom@);
        }
    }
    None
}

/// Merges funds into a coin vector as `merge_coin_vector` does, or answers `None` where an
/// amount would leave the range of 128 bits.
pub fn checked_merge_coin_vector(coins: Vec<Coin>, coin_vec_op: CoinVecOp) -> (r: Option<Vec<Coin>>)
    requires
        coins_unique(coins@),
    ensures
        r is Some <==> merge_in_range(coin_entries(coins@), coin_entries(coin_vec_op.fund@), coin_vec_op.operation),
        r matches Some(v) ==> merged(coin_entries(v@), coin_entries(coins@), coin_entries(coin_vec_op.fund@), coin_vec_op.operation),
        r matches Some(v) ==> coin_entries(v@) == merge_entries(coin_entries(coins@), coin_entries(coin_vec_op.fund@), coin_vec_op.operation),
{
    let fund = coin_vec_op.fund;
    let op = coin_vec_op.operation;
    let ghost fe = coin_entries(fund@);
    let ghost ce = coin_entries(coins@);
    let mut res = coins;
    let mut j: usize = 0;
    proof {
        assert forall|i: int| 0 <= i < fe.len() implies fe[i].1 >= 0 by {}
        assert forall|d: Seq<char>| #[trigger] entry_amount(fe.take(0), d) == 0 by {
            assert(fe.take(0).len() == 0);
        }
        assert forall|d: Seq<char>| #[trigger] entries_have(fe.take(0), d) == false by {}
    }
    while j < fund.len()
        invariant
            j <= fund.len(),
            fe == coin_entries(fund@),
            ce == coin_entries(coins@),
            fund@ == coin_vec_op.fund@,
            op == coin_vec_op.operation,
            entries_nonneg(fe),
            coins_unique(res@),
            forall|d: Seq<char>|
                #[trigger] entry_amount(coin_entries(res@), d) == apply_op(entry_amount(ce, d), entry_amount(fe.take(j as int), d), op),
            forall|d: Seq<char>|
                #[trigger] entries_have(coin_entries(res@), d) <==> entries_have(ce, d) || entries_have(fe.take(j as int), d),
            coin_entries(res@) == merge_entries(ce, fe.take(j as int), op),
        decreases fund.len() - j,
    {
        let c = &fund[j];
        let ghost fj = fe.take(j as int);
        let ghost fj1 = fe.take(j as int + 1);
        let ghost d0 = c.denom@;
        let ghost re = coin_entries(res@);
        proof {
            assert(fj1.drop_last() =~= fj);
            assert(fj1.last() == fe[j as int]);
            lemma_entry_amount_take_step(fe, j as int, d0);
            lemma_entry_amount_prefix(fe, j as int + 1, d0);
            assert(fe[j as int] == (d0, c.amount as int));
            assert(entry_amount(re, d0) == apply_op(entry_amount(ce, d0), entry_amount(fj, d0), op));
            assert(entry_amount(fj1, d0) == entry_amount(fj, d0) + c.amount);
        }
        match find_coin(&res, &c.denom) {
            Some(k) => {
                proof {
                    assert(re[k as int].0 == d0);
                    lemma_entry_amount_unique(re, k as int);
                    lemma_entry_index_unique(re, k as int);
                }
                let old_amount = res[k].amount;
                let checked = match op {
                    Operation::Add => old_amount.checked_add(c.amount),
                    Operation::Sub => old_amount.checked_sub(c.amount),
                };
                let new_amount = match checked {
                    Some(v) => v,
                    None => {
                        proof {
                            assert(!(0 <= apply_op(entry_amount(ce, d0), entry_amount(fe, d0), op) <= u128::MAX));
                            assert(!merge_in_range(ce, fe, op));
                        }
                        return None;
                    },
                };
                let denom = res[k].denom.clone();
                res.set(k, Coin { denom, amount: new_amount });
                proof {
                    assert(coin_entries(res@) =~= re.update(k as int, (re[k as int].0, new_amount as int)));
                    assert forall|d: Seq<char>|
                        #[trigger] entry_amount(coin_entries(res@), d) == apply_op(entry_amount(ce, d), entry_amount(fj1, d), op) by {
                        lemma_entry_amount_update(re, k as int, new_amount as int, d);
                        lemma_entry_amount_take_step(fe, j as int, d);
                    }
                    assert forall|d: Seq<char>|
                        #[trigger] entries_have(coin_entries(res@), d) <==> entries_have(ce, d) || entries_have(fj1, d) by {
                        if entries_have(fj1, d) && !entries_have(fj, d) {
                            let i = choose|i: int| 0 <= i < fj1.len() && #[trigger] fj1[i].0 == d;
                            assert(i == j);
                            assert(coin_entries(res@)[k as int].0 == d);
                        }
                        if entries_have(fj, d) {
                            let i = choose|i: int| 0 <= i < fj.len() && #[trigger] fj[i].0 == d;
                            assert(fj1[i].0 == d);
                        }
                        if entries_have(coin_entries(res@), d) {
                            let i = choose|i: int| #![auto] 0 <= i < coin_entries(res@).len() && coin_entries(res@)[i].0 == d;
                            assert(re[i].0 == d);
                        }
                        if entries_have(re, d) {
                            let i = choose|i: int| #![auto] 0 <= i < re.len() && re[i].0 == d;
                            assert(coin_entries(res@)[i].0 == d);
                        }
                    }
                }
            },
            None => {
                proof {
                    lemma_entry_amount_absent(re, d0);
                    assert(!entries_have(re, d0));
                }
                let checked = match op {
                    Operation::Add => Some(c.amount),
                    Operation::Sub => 0u128.checked_sub(c.amount),
                };
                let new_amount = match checked {
                    Some(v) => v,
                    None => {
                        proof {
                            assert(!(0 <= apply_op(entry_amount(ce, d0), entry_amount(fe, d0), op) <= u128::MAX));
                            assert(!merge_in_range(ce, fe, op));
                        }
                        return None;
                    },
                };
                res.push(Coin { denom: c.denom.clone(), amount: new_amount });
                proof {
                    assert(coin_entries(res@) =~= re.push((d0, new_amount as int)));
                    assert forall|d: Seq<char>|
                        #[trigger] entry_amount(coin_entries(res@), d) == apply_op(entry_amount(ce, d), entry_amount(fj1, d), op) by {
                        lemma_entry_amount_push(re, (d0, new_amount as int), d);
                        lemma_entry_amount_take_step(fe, j as int, d);
                    }
                    assert forall|d: Seq<char>|
                        #[trigger] entries_have(coin_entries(res@), d) <==> entries_have(ce, d) || entries_have(fj1, d) by {
                        if entries_have(fj1, d) && !entries_have(fj, d) {
                            let i = choose|i: int| 0 <= i < fj1.len() && #[trigger] fj1[i].0 == d;
                            assert(i == j);
                            assert(coin_entries(res@)[re.len() as int].0 == d);
                        }
                        if entries_have(fj, d) {
                            let i = choose|i: int| 0 <= i < fj.len() && #[trigger] fj[i].0 == d;
                            assert(fj1[i].0 == d);
                        }
                        if entries_have(coin_entries(res@), d) {
                            let i = choose|i: int| #![auto] 0 <= i < coin_entries(res@).len() && coin_entries(res@)[i].0 == d;
                            if i < re.len() {
                                assert(re[i].0 == d);
                            } else {
                                assert(fj1[j as int].0 == d);
                            }
                        }
                        if entries_have(re, d) {
                            let i = choose|i: int| #![auto] 0 <= i < re.len() && re[i].0 == d;
                            assert(coin_entries(res@)[i].0 == d);
                        }
                    }
                    assert forall|a: int, b: int| 0 <= a < b < coin_entries(res@).len()
                        implies coin_entries(res@)[a].0 != coin_entries(res@)[b].0 by {
                        if b == re.len() {
                            assert(re[a].0 != d0) by {
                                if re[a].0 == d0 {
                                    assert(entries_have(re, d0));
                                }
                            }
                        }
                    }
                }
            },
        }
        j = j + 1;
    }
    proof {
        assert(fe.take(fund.len() as int) =~= fe);
        assert forall|d: Seq<char>| 0 <= #[trigger] apply_op(entry_amount(ce, d), entry_amount(fe, d), op) <= u128::MAX by {
            assert(entry_amount(coin_entries(res@), d) == apply_op(entry_amount(ce, d), entry_amount(fe, d), op));
            if coins_have(res@, d) {
                let k = choose|k: int| 0 <= k < coin_entries(res@).len() && #[trigger] coin_entries(res@)[k].0 == d;
                lemma_entry_amount_unique(coin_entries(res@), k);
            } else {
                lemma_entry_amount_absent(coin_entries(res@), d);
            }
        }
    }
    Some(res)
}

/// Adds the funds to, or takes them from, a coin vector, denomination by denomination.
/// Denominations that are new to the vector are appended; an amount that drops to zero stays.
pub fn merge_coin_vector(coins: Vec<Coin>, coin_vec_op: CoinVecOp) -> (r: Vec<Coin>)
    requires
        coins_unique(coins@),
        merge_in_range(coin_entries(coins@), coin_entries(coin_vec_op.fund@), coin_vec_op.operation),
    ensures
        merged(coin_entries(r@), coin_entries(coins@), coin_entries(coin_vec_op.fund@), coin_vec_op.operation),
        coin_entries(r@) == merge_entries(coin_entries(coins@), coin_entries(coin_vec_op.fund@), coin_vec_op.operation),
{
    checked_merge_coin_vector(coins, coin_vec_op).unwrap()
}

/// A copy of a decimal coin vector.
pub fn clone_dec_coins(v: &Vec<DecCoin>) -> (r: Vec<DecCoin>)
    ensures
        r@ == v@,
{
    let mut r: Vec<DecCoin> = Vec::new();
    let mut i: usize = 0;
    while i < v.len()
        invariant
            i <= v.len(),
            r@ == v@.take(i as int),
        decreases v.len() - i,
    {
        r.push(v[i].clone());
        proof {
            assert(v@.take(i as int + 1) =~= v@.take(i as int).push(v@[i as int]));
        }
        i = i + 1;
    }
    proof {
        assert(v@.take(v.len() as int) =~= v@);
    }
    r
}

/// A copy of a coin vector.
pub fn clone_coins(v: &Vec<Coin>) -> (r: Vec<Coin>)
    ensures
        r@ == v@,
{
    let mut r: Vec<Coin> = Vec::new();
    let mut i: usize = 0;
    while i < v.len()
        invariant
            i <= v.len(),
            r@ == v@.take(i as int),
        decreases v.len() - i,
    {
        r.push(v[i].clone());
        proof {
            assert(v@.take(i as int + 1) =~= v@.take(i as int).push(v@[i as int]));
        }
        i = i + 1;
    }
    proof {
        assert(v@.take(v.len() as int) =~= v@);
    }
    r
}

/// Merges funds into a decimal coin vector as `merge_dec_coin_vector` does, or answers `None` where an
/// amount would leave the range of 128 bits.
pub fn checked_merge_dec_coin_vector(coins: &Vec<DecCoin>, dec_coin_vec_op: DecCoinVecOp) -> (r: Option<Vec<DecCoin>>)
    requires
        dec_coins_unique(coins@),
    ensures
        r is Some <==> merge_in_range(dec_coin_entries(coins@), dec_coin_entries(dec_coin_vec_op.fund@), dec_coin_vec_op.operation),
        r matches Some(v) ==> merged(dec_coin_entries(v@), dec_coin_entries(coins@), dec_coin_entries(dec_coin_vec_op.fund@), dec_coin_vec_op.operation),
        r matches Some(v) ==> dec_coin_entries(v@) == merge_entries(dec_coin_entries(coins@), dec_coin_entries(dec_coin_vec_op.fund@), dec_coin_vec_op.operation),
{
    let fund = dec_coin_vec_op.fund;
    let op = dec_coin_vec_op.operation;
    let ghost fe = dec_coin_entries(fund@);
    let ghost ce = dec_coin_entries(coins@);
    let mut res = clone_dec_coins(coins);
    let mut j: usize = 0;
    proof {
        assert forall|i: int| 0 <= i < fe.len() implies fe[i].1 >= 0 by {}
        assert forall|d: Seq<char>| #[trigger] entry_amount(fe.take(0), d) == 0 by {
            assert(fe.take(0).len() == 0);
        }
        assert forall|d: Seq<char>| #[trigger] entries_have(fe.take(0), d) == false by {}
    }
    while j < fund.len()
        invariant
            j <= fund.len(),
            fe == dec_coin_entries(fund@),
            ce == dec_coin_entries(coins@),
            fund@ == dec_coin_vec_op.fund@,
            op == dec_coin_vec_op.operation,
            entries_nonneg(fe),
            dec_coins_unique(res@),
            forall|d: Seq<char>|
                #[trigger] entry_amount(dec_coin_entries(res@), d) == apply_op(entry_amount(ce, d), entry_amount(fe.take(j as int), d), op),
            forall|d: Seq<char>|
                #[trigger] entries_have(dec_coin_entries(res@), d) <==> entries_have(ce, d) || entries_have(fe.take(j as int), d),
            dec_coin_entries(res@) == merge_entries(ce, fe.take(j as int), op),
        decreases fund.len() - j,
    {
        let c = &fund[j];
        let ghost fj = fe.take(j as int);
        let ghost fj1 = fe.take(j as int + 1);
        let ghost d0 = c.denom@;
        let ghost re = dec_coin_entries(res@);
        proof {
            assert(fj1.drop_last() =~= fj);
            assert(fj1.last() == fe[j as int]);
            lemma_entry_amount_take_step(fe, j as int, d0);
            lemma_entry_amount_prefix(fe, j as int + 1, d0);
            assert(fe[j as int] == (d0, c.amount.atomics as int));
            assert(entry_amount(re, d0) == apply_op(entry_amount(ce, d0), entry_amount(fj, d0), op));
            assert(entry_amount(fj1, d0) == entry_amount(fj, d0) + c.amount.atomics);
        }
        match find_dec_coin(&res, &c.denom) {
            Some(k) => {
                proof {
                    assert(re[k as int].0 == d0);
                    lemma_entry_amount_unique(re, k as int);
                    lemma_entry_index_unique(re, k as int);
                }
                let old_amount = res[k].amount.atomics;
                let checked = match op {
                    Operation::Add => old_amount.checked_add(c.amount.atomics),
                    Operation::Sub => old_amount.checked_sub(c.amount.atomics),
                };
                let new_amount = match checked {
                    Some(v) => v,
                    None => {
                        proof {
                            assert(!(0 <= apply_op(entry_amount(ce, d0), entry_amount(fe, d0), op) <= u128::MAX));
                            assert(!merge_in_range(ce, fe, op));
                        }
                        return None;
                    },
                };
                let denom = res[k].denom.clone();
                res.set(k, DecCoin { denom, amount: Decimal { atomics: new_amount } });
                proof {
                    assert(dec_coin_entries(res@) =~= re.update(k as int, (re[k as int].0, new_amount as int)));
                    assert forall|d: Seq<char>|
                        #[trigger] entry_amount(dec_coin_entries(res@), d) == apply_op(entry_amount(ce, d), entry_amount(fj1, d), op) by {
                        lemma_entry_amount_update(re, k as int, new_amount as int, d);
                        lemma_entry_amount_take_step(fe, j as int, d);
                    }
                    assert forall|d: Seq<char>|
                        #[trigger] entries_have(dec_coin_entries(res@), d) <==> entries_have(ce, d) || entries_have(fj1, d) by {
                        if entries_have(fj1, d) && !entries_have(fj, d) {
                            let i = choose|i: int| 0 <= i < fj1.len() && #[trigger] fj1[i].0 == d;
                            assert(i == j);
                            assert(dec_coin_entries(res@)[k as int].0 == d);
                        }
                        if entries_have(fj, d) {
                            let i = choose|i: int| 0 <= i < fj.len() && #[trigger] fj[i].0 == d;
                            assert(fj1[i].0 == d);
                        }
                        if entries_have(dec_coin_entries(res@), d) {
                            let i = choose|i: int| #![auto] 0 <= i < dec_coin_entries(res@).len() && dec_coin_entries(res@)[i].0 == d;
                            assert(re[i].0 == d);
                        }
                        if entries_have(re, d) {
                            let i = choose|i: int| #![auto] 0 <= i < re.len() && re[i].0 == d;
                            assert(dec_coin_entries(res@)[i].0 == d);
                        }
                    }
                }
            },
            None => {
                proof {
                    lemma_entry_amount_absent(re, d0);
                    assert(!entries_have(re, d0));
                }
                let checked = match op {
                    Operation::Add => Some(c.amount.atomics),
                    Operation::Sub => 0u128.checked_sub(c.amount.atomics),
                };
                let new_amount = match checked {
                    Some(v) => v,
                    None => {
                        proof {
                            assert(!(0 <= apply_op(entry_amount(ce, d0), entry_amount(fe, d0), op) <= u128::MAX));
                            assert(!merge_in_range(ce, fe, op));
                        }
                        return None;
                    },
                };
                res.push(DecCoin { denom: c.denom.clone(), amount: Decimal { atomics: new_amount } });
                proof {
                    assert(dec_coin_entries(res@) =~= re.push((d0, new_amount as int)));
                    assert forall|d: Seq<char>|
                        #[trigger] entry_amount(dec_coin_entries(res@), d) == apply_op(entry_amount(ce, d), entry_amount(fj1, d), op) by {
                        lemma_entry_amount_push(re, (d0, new_amount as int), d);
                        lemma_entry_amount_take_step(fe, j as int, d);
                    }
                    assert forall|d: Seq<char>|
                        #[trigger] entries_have(dec_coin_entries(res@), d) <==> entries_have(ce, d) || entries_have(fj1, d) by {
                        if entries_have(fj1, d) && !entries_have(fj, d) {
                            let i = choose|i: int| 0 <= i < fj1.len() && #[trigger] fj1[i].0 == d;
                            assert(i == j);
                            assert(dec_coin_entries(res@)[re.len() as int].0 == d);
                        }
                        if entries_have(fj, d) {
                            let i = choose|i: int| 0 <= i < fj.len() && #[trigger] fj[i].0 == d;
                            assert(fj1[i].0 == d);
                        }
                        if entries_have(dec_coin_entries(res@), d) {
                            let i = choose|i: int| #![auto] 0 <= i < dec_coin_entries(res@).len() && dec_coin_entries(res@)[i].0 == d;
                            if i < re.len() {
                                assert(re[i].0 == d);
                            } else {
                                assert(fj1[j as int].0 == d);
                            }
                        }
                        if entries_have(re, d) {
                            let i = choose|i: int| #![auto] 0 <= i < re.len() && re[i].0 == d;
                            assert(dec_coin_entries(res@)[i].0 == d);
                        }
                    }
                    assert forall|a: int, b: int| 0 <= a < b < dec_coin_entries(res@).len()
                        implies dec_coin_entries(res@)[a].0 != dec_coin_entries(res@)[b].0 by {
                        if b == re.len() {
                            assert(re[a].0 != d0) by {
                                if re[a].0 == d0 {
                                    assert(entries_have(re, d0));
                                }
                            }
                        }
                    }
                }
            },
        }
        j = j + 1;
    }
    proof {
        assert(fe.take(fund.len() as int) =~= fe);
        assert forall|d: Seq<char>| 0 <= #[trigger] apply_op(entry_amount(ce, d), entry_amount(fe, d), op) <= u128::MAX by {
            assert(entry_amount(dec_coin_entries(res@), d) == apply_op(entry_amount(ce, d), entry_amount(fe, d), op));
            if dec_coins_have(res@, d) {
                let k = choose|k: int| 0 <= k < dec_coin_entries(res@).len() && #[trigger] dec_coin_entries(res@)[k].0 == d;
                lemma_entry_amount_unique(dec_coin_entries(res@), k);
            } else {
                lemma_entry_amount_absent(dec_coin_entries(res@), d);
            }
        }
    }
    Some(res)
}

/// Adds the funds to, or takes them from, a decimal coin vector, denomination by denomination.
/// Denominations that are new to the vector are appended; an amount that drops to zero stays.
pub fn merge_dec_coin_vector(coins: &Vec<DecCoin>, dec_coin_vec_op: DecCoinVecOp) -> (r: Vec<DecCoin>)
    requires
        dec_coins_unique(coins@),
        merge_in_range(dec_coin_entries(coins@), dec_coin_entries(dec_coin_vec_op.fund@), dec_coin_vec_op.operation),
    ensures
        merged(dec_coin_entries(r@), dec_coin_entries(coins@), dec_coin_entries(dec_coin_vec_op.fund@), dec_coin_vec_op.operation),
        dec_coin_entries(r@) == merge_entries(dec_coin_entries(coins@), dec_coin_entries(dec_coin_vec_op.fund@), dec_coin_vec_op.operation),
{
    checked_merge_dec_coin_vector(coins, dec_coin_vec_op).unwrap()
}

/// The pointer value a user holds for denomination `d`: zero where the pointer has no entry.
pub open spec fn pointer_value(user_pointer: Seq<DecCoin>, d: Seq<char>) -> int {
    dec_coin_amount(user_pointer, d)
}

/// The whole airdrop that `shares` earned in one denomination since the user's pointer:
/// `(global - user) * shares`, floored twice as the contract computes it.
pub open spec fn airdrop_amount(g: DecCoin, user_pointer: Seq<DecCoin>, shares: Decimal) -> int {
    (g.amount.atomics - pointer_value(user_pointer, g.denom@)) * shares.atomics
        / (crate::math::DECIMAL_FRACTIONAL as int) / (crate::math::DECIMAL_FRACTIONAL as int)
}

/// Whether the airdrop of every denomination of the global pointer can be computed: the user's
/// pointer is not ahead of the global one, and the product fits in 128 bits.
pub open spec fn airdrops_computable(global: Seq<DecCoin>, user_pointer: Seq<DecCoin>, shares: Decimal) -> bool {
    forall|i: int| 0 <= i < global.len() ==> {
        &&& pointer_value(user_pointer, #[trigger] global[i].denom@) <= global[i].amount.atomics
        &&& (global[i].amount.atomics - pointer_value(user_pointer, global[i].denom@)) * shares.atomics
            / (crate::math::DECIMAL_FRACTIONAL as int) <= u128::MAX
    }
}

/// The airdrops that `user_shares` earned in a strategy since the user's airdrop pointer was
/// last moved: for every denomination of the strategy's global pointer, in its order,
/// `(global - user) * shares`. `None` when the strategy has no airdrops at all.
pub fn get_user_airdrops(
    strategy_global_airdrop_pointer: &Vec<DecCoin>,
    user_airdrop_pointer: &Vec<DecCoin>,
    user_shares: Decimal,
) -> (r: Option<Vec<Coin>>)
    requires
        dec_coins_unique(user_airdrop_pointer@),
        airdrops_computable(strategy_global_airdrop_pointer@, user_airdrop_pointer@, user_shares),
    ensures
        r is None <==> strategy_global_airdrop_pointer@.len() == 0,
        r matches Some(v) ==> {
            &&& v@.len() == strategy_global_airdrop_pointer@.len()
            &&& forall|i: int| 0 <= i < v@.len() ==> {
                &&& (#[trigger] v@[i]).denom == strategy_global_airdrop_pointer@[i].denom
                &&& v@[i].amount == airdrop_amount(strategy_global_airdrop_pointer@[i], user_airdrop_pointer@, user_shares)
            }
        },
{
    let global = strategy_global_airdrop_pointer;
    if global.len() == 0 {
        return None;
    }
    let mut airdrops: Vec<Coin> = Vec::new();
    let mut i: usize = 0;
    while i < global.len()
        invariant
            i <= global.len(),
            airdrops@.len() == i,
            dec_coins_unique(user_airdrop_pointer@),
            airdrops_computable(global@, user_airdrop_pointer@, user_shares),
            forall|k: int| 0 <= k < i ==> {
                &&& (#[trigger] airdrops@[k]).denom == global@[k].denom
                &&& airdrops@[k].amount == airdrop_amount(global@[k], user_airdrop_pointer@, user_shares)
            },
        decreases global.len() - i,
    {
        let g = &global[i];
        let user_value = match find_dec_coin(user_airdrop_pointer, &g.denom) {
            Some(k) => {
                proof {
                    assert(dec_coin_entries(user_airdrop_pointer@)[k as int].0 == g.denom@);
                    lemma_entry_amount_unique(dec_coin_entries(user_airdrop_pointer@), k as int);
                }
                user_airdrop_pointer[k].amount
            },
            None => {
                proof {
                    lemma_entry_amount_absent(dec_coin_entries(user_airdrop_pointer@), g.denom@);
                }
                Decimal::zero()
            },
        };
        proof {
            assert(pointer_value(user_airdrop_pointer@, global@[i as int].denom@) <= global@[i as int].amount.atomics);
        }
        let diff = decimal_subtraction_in_256(g.amount, user_value);
        let earned = decimal_multiplication_in_256(diff, user_shares);
        let amount = uint128_from_decimal(earned);
        airdrops.push(Coin { denom: g.denom.clone(), amount });
        i = i + 1;
    }
    Some(airdrops)
}

/// Whether `get_user_airdrops` can compute the airdrops of these pointers and shares.
pub fn user_airdrops_computable(
    strategy_global_airdrop_pointer: &Vec<DecCoin>,
    user_airdrop_pointer: &Vec<DecCoin>,
    user_shares: Decimal,
) -> (r: bool)
    requires
        dec_coins_unique(user_airdrop_pointer@),
    ensures
        r == airdrops_computable(strategy_global_airdrop_pointer@, user_airdrop_pointer@, user_shares),
{
    let global = strategy_global_airdrop_pointer;
    let mut i: usize = 0;
    while i < global.len()
        invariant
            i <= global.len(),
            global@ == strategy_global_airdrop_pointer@,
            dec_coins_unique(user_airdrop_pointer@),
            forall|k: int| 0 <= k < i ==> {
                &&& pointer_value(user_airdrop_pointer@, #[trigger] global@[k].denom@) <= global@[k].amount.atomics
                &&& (global@[k].amount.atomics - pointer_value(user_airdrop_pointer@, global@[k].denom@)) * user_shares.atomics
                    / (crate::math::DECIMAL_FRACTIONAL as int) <= u128::MAX
            },
        decreases global.len() - i,
    {
        let g = &global[i];
        let user_value = match find_dec_coin(user_airdrop_pointer, &g.denom) {
            Some(k) => {
                proof {
                    assert(dec_coin_entries(user_airdrop_pointer@)[k as int].0 == g.denom@);
                    lemma_entry_amount_unique(dec_coin_entries(user_airdrop_pointer@), k as int);
                }
                user_airdrop_pointer[k].amount
            },
            None => {
                proof {
                    lemma_entry_amount_absent(dec_coin_entries(user_airdrop_pointer@), g.denom@);
                }
                Decimal::zero()
            },
        };
        proof {
            assert(pointer_value(user_airdrop_pointer@, global@[i as int].denom@) == user_value.atomics);
        }
        if user_value.atomics > g.amount.atomics {
            proof {
                assert(!(pointer_value(user_airdrop_pointer@, global@[i as int].denom@) <= global@[i as int].amount.atomics));
            }
            return false;
        }
        let diff = decimal_subtraction_in_256(g.amount, user_value);
        if crate::math::checked_decimal_multiplication(diff, user_shares).is_none() {
            proof {
                assert(!((global@[i as int].amount.atomics - pointer_value(user_airdrop_pointer@, global@[i as int].denom@)) * user_shares.atomics
                    / (crate::math::DECIMAL_FRACTIONAL as int) <= u128::MAX));
            }
            return false;
        }
        i = i + 1;
    }
    true
}

pub proof fn lemma_entry_amount_concat(a: Seq<(Seq<char>, int)>, b: Seq<(Seq<char>, int)>, d: Seq<char>)
    ensures
        entry_amount(a + b, d) == entry_amount(a, d) + entry_amount(b, d),
    decreases b.len(),
{
    if b.len() == 0 {
        assert(a + b =~= a);
    } else {
        assert((a + b).drop_last() =~= a + b.drop_last());
        lemma_entry_amount_concat(a, b.drop_last(), d);
    }
}

pub proof fn lemma_entries_have_concat(a: Seq<(Seq<char>, int)>, b: Seq<(Seq<char>, int)>, d: Seq<char>)
    ensures
        entries_have(a + b, d) <==> entries_have(a, d) || entries_have(b, d),
{
    if entries_have(a + b, d) {
        let i = choose|i: int| 0 <= i < (a + b).len() && #[trigger] (a + b)[i].0 == d;
        if i < a.len() {
            assert(a[i].0 == d);
        } else {
            assert(b[i - a.len()].0 == d);
        }
    }
    if entries_have(a, d) {
        let i = choose|i: int| 0 <= i < a.len() && #[trigger] a[i].0 == d;
        assert((a + b)[i].0 == d);
    }
    if entries_have(b, d) {
        let i = choose|i: int| 0 <= i < b.len() && #[trigger] b[i].0 == d;
        assert((a + b)[a.len() + i].0 == d);
    }
}

pub proof fn lemma_coin_entries_concat(a: Seq<Coin>, b: Seq<Coin>)
    ensures
        coin_entries(a + b) == coin_entries(a) + coin_entries(b),
{
    assert(coin_entries(a + b) =~= coin_entries(a) + coin_entries(b));
}

pub proof fn lemma_coin_entries_nonneg(a: Seq<Coin>)
    ensures
        entries_nonneg(coin_entries(a)),
{
}

/// Adding two funds one after the other adds their concatenation.
pub proof fn lemma_merged_compose(
    c: Seq<(Seq<char>, int)>,
    f1: Seq<(Seq<char>, int)>,
    f2: Seq<(Seq<char>, int)>,
    r1: Seq<(Seq<char>, int)>,
    r2: Seq<(Seq<char>, int)>,
)
    requires
        merged(r1, c, f1, Operation::Add),
        merged(r2, r1, f2, Operation::Add),
    ensures
        merged(r2, c, f1 + f2, Operation::Add),
{
    assert forall|d: Seq<char>| #[trigger] entry_amount(r2, d) == apply_op(entry_amount(c, d), entry_amount(f1 + f2, d), Operation::Add) by {
        lemma_entry_amount_concat(f1, f2, d);
        assert(entry_amount(r1, d) == apply_op(entry_amount(c, d), entry_amount(f1, d), Operation::Add));
        assert(entry_amount(r2, d) == apply_op(entry_amount(r1, d), entry_amount(f2, d), Operation::Add));
    }
    assert forall|d: Seq<char>| #[trigger] entries_have(r2, d) <==> entries_have(c, d) || entries_have(f1 + f2, d) by {
        lemma_entries_have_concat(f1, f2, d);
        assert(entries_have(r1, d) <==> entries_have(c, d) || entries_have(f1, d));
        assert(entries_have(r2, d) <==> entries_have(r1, d) || entries_have(f2, d));
    }
}

/// Adding a concatenation stays in range exactly when adding its parts one after the other does.
pub proof fn lemma_in_range_compose(
    c: Seq<(Seq<char>, int)>,
    f1: Seq<(Seq<char>, int)>,
    f2: Seq<(Seq<char>, int)>,
    r1: Seq<(Seq<char>, int)>,
)
    requires
        entries_nonneg(c),
        entries_nonneg(f1),
        entries_nonneg(f2),
        merged(r1, c, f1, Operation::Add),
    ensures
        merge_in_range(c, f1 + f2, Operation::Add) <==> merge_in_range(c, f1, Operation::Add) && merge_in_range(r1, f2, Operation::Add),
{
    assert forall|d: Seq<char>| #[trigger] apply_op(entry_amount(c, d), entry_amount(f1 + f2, d), Operation::Add)
        == apply_op(entry_amount(r1, d), entry_amount(f2, d), Operation::Add) by {
        lemma_entry_amount_concat(f1, f2, d);
        assert(entry_amount(r1, d) == apply_op(entry_amount(c, d), entry_amount(f1, d), Operation::Add));
    }
    if merge_in_range(c, f1 + f2, Operation::Add) {
        assert forall|d: Seq<char>| 0 <= #[trigger] apply_op(entry_amount(c, d), entry_amount(f1, d), Operation::Add) <= u128::MAX by {
            lemma_entry_amount_nonneg(c, d);
            lemma_entry_amount_nonneg(f1, d);
            lemma_entry_amount_nonneg(f2, d);
            lemma_entry_amount_concat(f1, f2, d);
            assert(0 <= apply_op(entry_amount(c, d), entry_amount(f1 + f2, d), Operation::Add) <= u128::MAX);
        }
        assert forall|d: Seq<char>| 0 <= #[trigger] apply_op(entry_amount(r1, d), entry_amount(f2, d), Operation::Add) <= u128::MAX by {
            assert(0 <= apply_op(entry_amount(c, d), entry_amount(f1 + f2, d), Operation::Add) <= u128::MAX);
        }
    }
    if merge_in_range(c, f1, Operation::Add) && merge_in_range(r1, f2, Operation::Add) {
        assert forall|d: Seq<char>| 0 <= #[trigger] apply_op(entry_amount(c, d), entry_amount(f1 + f2, d), Operation::Add) <= u128::MAX by {
            assert(0 <= apply_op(entry_amount(r1, d), entry_amount(f2, d), Operation::Add) <= u128::MAX);
        }
    }
}

/// Merging nothing changes no amount.
pub proof fn lemma_merged_empty(c: Seq<(Seq<char>, int)>)
    requires
        entries_unique(c),
    ensures
        merged(c, c, Seq::empty(), Operation::Add),
        merge_in_range(c, Seq::empty(), Operation::Add) <==> forall|d: Seq<char>| 0 <= #[trigger] entry_amount(c, d) <= u128::MAX,
{
    assert forall|d: Seq<char>| #[trigger] entry_amount(c, d) == apply_op(entry_amount(c, d), entry_amount(Seq::<(Seq<char>, int)>::empty(), d), Operation::Add) by {}
    assert forall|d: Seq<char>| #[trigger] entries_have(c, d) <==> entries_have(c, d) || entries_have(Seq::<(Seq<char>, int)>::empty(), d) by {}
    assert forall|d: Seq<char>| #[trigger] apply_op(entry_amount(c, d), entry_amount(Seq::<(Seq<char>, int)>::empty(), d), Operation::Add) == entry_amount(c, d) by {}
}

} // verus!
