use crate::addr::Addr;
use crate::asset::{Asset, AssetInfo, AssetInfoV, AssetList, AssetV};
use crate::decimal::{mul_floor_spec, Decimal};
use crate::fee_config::{
    recipient_msgs, remainder_spec, scaled_fees, wf, FeeConfig, FeeError, TransferMsg,
};
use vstd::prelude::*;

verus! {

/// An amount of one native coin.
#[derive(Clone, Debug, PartialEq, Eq)]
pub struct Coin {
    pub denom: String,
    pub amount: u128,
}

/// Mathematical image of a `Coin`.
pub struct CoinV {
    pub denom: Seq<char>,
    pub amount: u128,
}

impl DeepView for Coin {
    type V = CoinV;

    open spec fn deep_view(&self) -> CoinV {
        CoinV { denom: self.denom@, amount: self.amount }
    }
}

impl Coin {
    pub fn new(amount: u128, denom: String) -> (r: Coin)
        ensures
            r.deep_view() == (CoinV { denom: denom@, amount }),
    {
        Coin { denom, amount }
    }

    /// A fresh copy.
    pub fn dup(&self) -> (r: Coin)
        ensures
            r.deep_view() == self.deep_view(),
    {
        Coin { denom: self.denom.clone(), amount: self.amount }
    }
}

/// A native-coin balance set: at most one entry per denomination and no
/// zero amounts.
pub open spec fn coins_wf(s: Seq<CoinV>) -> bool {
    (forall|i: int, j: int| 0 <= i < j < s.len() ==> s[i].denom != s[j].denom) && (forall|i: int|
        0 <= i < s.len() ==> s[i].amount != 0)
}

/// The entries with a non-zero amount, in their original order.
pub open spec fn nonzero_coins(s: Seq<CoinV>) -> Seq<CoinV>
    decreases s.len(),
{
    if s.len() == 0 {
        Seq::empty()
    } else {
        let rest = nonzero_coins(s.drop_last());
        if s.last().amount == 0 {
            rest
        } else {
            rest.push(s.last())
        }
    }
}

/// No two entries share a denomination.
pub open spec fn distinct_denoms(s: Seq<CoinV>) -> bool {
    forall|i: int, j: int| 0 <= i < j < s.len() ==> s[i].denom != s[j].denom
}

/// The amount carried under `denom`, or zero when the denomination is
/// absent.
pub open spec fn amount_of_spec(s: Seq<CoinV>, denom: Seq<char>) -> u128
    decreases s.len(),
{
    if s.len() == 0 {
        0
    } else if s[0].denom == denom {
        s[0].amount
    } else {
        amount_of_spec(s.drop_first(), denom)
    }
}

/// Each coin as a native asset, in order.
pub open spec fn coins_as_assets(s: Seq<CoinV>) -> Seq<AssetV> {
    s.map_values(|c: CoinV| AssetV { info: AssetInfoV::Native(c.denom), amount: c.amount })
}

/// Each native asset as a coin, in order. Only meaningful on sequences of
/// native entries.
pub open spec fn assets_as_coins(s: Seq<AssetV>) -> Seq<CoinV> {
    s.map_values(
        |a: AssetV|
            CoinV {
                denom: match a.info {
                    AssetInfoV::Native(d) => d,
                    AssetInfoV::Cw20(x) => x,
                },
                amount: a.amount,
            },
    )
}

proof fn lemma_nonzero_coins_take_succ(s: Seq<CoinV>, i: int)
    requires
        0 <= i < s.len(),
    ensures
        nonzero_coins(s.take(i + 1)) == (if s[i].amount == 0 {
            nonzero_coins(s.take(i))
        } else {
            nonzero_coins(s.take(i)).push(s[i])
        }),
{
    assert(s.take(i + 1).drop_last() =~= s.take(i));
    assert(s.take(i + 1).last() == s[i]);
}

/// What was already filtered stays in place as the input grows.
proof fn lemma_nonzero_coins_take_prefix(s: Seq<CoinV>, i: int)
    requires
        0 <= i <= s.len(),
    ensures
        nonzero_coins(s.take(i)).len() <= nonzero_coins(s).len(),
        forall|k: int|
            0 <= k < nonzero_coins(s.take(i)).len() ==> nonzero_coins(s.take(i))[k]
                == nonzero_coins(s)[k],
    decreases s.len() - i,
{
    if i == s.len() {
        assert(s.take(i) =~= s);
    } else {
        lemma_nonzero_coins_take_succ(s, i);
        lemma_nonzero_coins_take_prefix(s, i + 1);
    }
}

/// Every entry is a native coin.
pub open spec fn all_native(s: Seq<AssetV>) -> bool {
    forall|i: int| 0 <= i < s.len() ==> s[i].info is Native
}

/// Taking fees out of native balances leaves native balances.
proof fn lemma_net_of_fees_native(s: Seq<AssetV>, rate: Decimal)
    requires
        all_native(s),
    ensures
        all_native(crate::fee_config::net_of_fees(s, rate)),
    decreases s.len(),
{
    if s.len() > 0 {
        assert(forall|i: int| 0 <= i < s.drop_last().len() ==> s.drop_last()[i] == s[i]);
        lemma_net_of_fees_native(s.drop_last(), rate);
        let rest = crate::fee_config::net_of_fees(s.drop_last(), rate);
        let whole = crate::fee_config::net_of_fees(s, rate);
        assert(s.last() == s[s.len() - 1]);
        assert forall|i: int| 0 <= i < whole.len() implies whole[i].info is Native by {
            if i < rest.len() {
                assert(whole[i] == rest[i]);
            }
        }
    }
}

/// Taking the fee out of a well-formed coin set leaves a well-formed
/// coin set: the remainder can itself be split again.
pub proof fn lemma_remainder_keeps_coins_wf(cv: Seq<CoinV>, rate: Decimal)
    requires
        coins_wf(cv),
        rate.atomics <= crate::decimal::DECIMAL_FRACTIONAL,
    ensures
        coins_wf(assets_as_coins(remainder_spec(coins_as_assets(cv), rate))),
{
    let av = coins_as_assets(cv);
    assert forall|p: int, q: int| 0 <= p < q < av.len() implies av[p].info != av[q].info by {
        assert(av[p].info == AssetInfoV::Native(cv[p].denom));
        assert(av[q].info == AssetInfoV::Native(cv[q].denom));
    }
    assert forall|p: int| 0 <= p < av.len() implies av[p].info is Native by {
        assert(av[p].info == AssetInfoV::Native(cv[p].denom));
    }
    let remv = remainder_spec(av, rate);
    if crate::fee_config::scaled_fees(av, rate).len() == 0 {
        assert(remv == av);
        assert(assets_as_coins(av) =~= cv);
    } else {
        crate::fee_config::lemma_net_of_fees_distinct(av, rate);
        crate::fee_config::lemma_net_of_fees_nonzero(av, rate);
        lemma_net_of_fees_native(av, rate);
        let out = assets_as_coins(remv);
        assert forall|p: int, q: int| 0 <= p < q < out.len() implies out[p].denom
            != out[q].denom by {
            assert(remv[p].info != remv[q].info);
            assert(remv[p].info is Native && remv[q].info is Native);
        }
        assert forall|p: int| 0 <= p < out.len() implies out[p].amount != 0 by {
            assert(remv[p].amount != 0);
        }
    }
}

/// A native-coin balance set: keyed by denomination, with no zero
/// amounts.
///
/// Entries keep the order in which they were first supplied; the set is
/// keyed, not sorted, so two sets built from differently ordered inputs
/// are distinct values even when they hold the same balances. This is a
/// deliberate choice: the contracts downstream speak of entries by their
/// position in the input, and no rule here depends on an alphabetical
/// arrangement.
#[derive(Clone, Debug, PartialEq, Eq)]
pub struct Coins {
    pub coins: Vec<Coin>,
}

impl DeepView for Coins {
    type V = Seq<CoinV>;

    open spec fn deep_view(&self) -> Seq<CoinV> {
        self.coins.deep_view()
    }
}

impl Coins {
    /// An empty balance set.
    pub fn new() -> (r: Coins)
        ensures
            r.deep_view() == Seq::<CoinV>::empty(),
            coins_wf(r.deep_view()),
    {
        let r = Coins { coins: Vec::new() };
        proof {
            assert(r.deep_view() =~= Seq::<CoinV>::empty());
        }
        r
    }

    /// Builds a balance set from a list of coins: zero amounts are
    /// dropped, and two non-zero entries under one denomination are
    /// refused.
    pub fn try_from_vec(v: Vec<Coin>) -> (r: Result<Coins, FeeError>)
        ensures
            r matches Ok(c) ==> c.deep_view() == nonzero_coins(v.deep_view()) && coins_wf(
                c.deep_view(),
            ),
            r.is_ok() == distinct_denoms(nonzero_coins(v.deep_view())),
    {
        let ghost dv = v.deep_view();
        let n = v.len();
        let mut out: Vec<Coin> = Vec::new();
        let mut i: usize = 0;
        while i < n
            invariant
                i <= n,
                n == dv.len(),
                dv == v.deep_view(),
                out.deep_view() == nonzero_coins(dv.take(i as int)),
                coins_wf(out.deep_view()),
            decreases n - i,
        {
            proof {
                assert(dv[i as int] == v@[i as int].deep_view());
                lemma_nonzero_coins_take_succ(dv, i as int);
            }
            let c = &v[i];
            if c.amount != 0 {
                // refuse a denomination that is already present
                let mut k: usize = 0;
                let m = out.len();
                let mut found = false;
                while k < m
                    invariant
                        k <= m,
                        m == out@.len(),
                        out.deep_view() == nonzero_coins(dv.take(i as int)),
                        dv == v.deep_view(),
                        i < dv.len(),
                        c.denom@ == dv[i as int].denom,
                        found ==> exists|l: int|
                            0 <= l < m && out.deep_view()[l].denom == dv[i as int].denom,
                        !found ==> forall|l: int|
                            0 <= l < k ==> out.deep_view()[l].denom != dv[i as int].denom,
                    decreases m - k,
                {
                    proof {
                        assert(out.deep_view()[k as int] == out@[k as int].deep_view());
                    }
                    if out[k].denom == c.denom {
                        found = true;
                    }
                    k = k + 1;
                }
                if found {
                    proof {
                        let nz = nonzero_coins(dv.take(i as int + 1));
                        let l = choose|l: int|
                            0 <= l < m && out.deep_view()[l].denom == dv[i as int].denom;
                        assert(nz[l].denom == nz[nz.len() - 1].denom);
                        lemma_nonzero_coins_take_prefix(dv, i as int + 1);
                        assert(nonzero_coins(dv)[l].denom == nonzero_coins(dv)[nz.len()
                            - 1].denom);
                    }
                    return Err(FeeError::DuplicateDenom);
                }
                out.push(c.dup());
                proof {
                    assert(out.deep_view() =~= nonzero_coins(dv.take(i as int + 1)));
                }
            }
            i = i + 1;
        }
        proof {
            assert(dv.take(n as int) =~= dv);
        }
        Ok(Coins { coins: out })
    }

    /// A copy of the entries.
    pub fn to_vec(&self) -> (r: Vec<Coin>)
        ensures
            r.deep_view() == self.deep_view(),
    {
        let mut out: Vec<Coin> = Vec::new();
        let mut i: usize = 0;
        while i < self.coins.len()
            invariant
                i <= self.coins.len(),
                out@.len() == i,
                forall|k: int| 0 <= k < i ==> out@[k].deep_view() == self.deep_view()[k],
            decreases self.coins.len() - i,
        {
            let c = self.coins[i].dup();
            proof {
                assert(c.deep_view() == self.deep_view()[i as int]);
            }
            out.push(c);
            i = i + 1;
        }
        proof {
            assert(out.deep_view() =~= self.deep_view());
        }
        out
    }

    pub fn len(&self) -> (r: usize)
        ensures
            r == self.deep_view().len(),
    {
        self.coins.len()
    }

    pub fn is_empty(&self) -> (r: bool)
        ensures
            r == (self.deep_view().len() == 0),
    {
        self.coins.len() == 0
    }

    /// The amount held under `denom`, or zero when it is absent.
    pub fn amount_of(&self, denom: &String) -> (r: u128)
        ensures
            r == amount_of_spec(self.deep_view(), denom@),
    {
        let ghost dv = self.deep_view();
        let n = self.coins.len();
        let mut i: usize = 0;
        proof {
            assert(dv.skip(0) =~= dv);
        }
        while i < n
            invariant
                i <= n,
                n == dv.len(),
                dv == self.deep_view(),
                amount_of_spec(dv, denom@) == amount_of_spec(dv.skip(i as int), denom@),
            decreases n - i,
        {
            proof {
                assert(dv[i as int] == self.coins@[i as int].deep_view());
                assert(dv.skip(i as int).drop_first() =~= dv.skip(i as int + 1));
                assert(dv.skip(i as int)[0] == dv[i as int]);
            }
            if self.coins[i].denom == *denom {
                return self.coins[i].amount;
            }
            i = i + 1;
        }
        proof {
            assert(dv.skip(n as int) =~= Seq::<CoinV>::empty());
        }
        0
    }
}

impl FeeConfig<Addr> {
    /// Takes the fee out of a native-coin balance set: the transfer
    /// instructions for the recipients, and the remaining coins.
    pub fn fee_msgs_from_coins(&self, coins: &Coins, contract_addr: &Addr) -> (r: Result<
        (Vec<TransferMsg>, Coins),
        FeeError,
    >)
        requires
            wf(self.deep_view()),
            coins_wf(coins.deep_view()),
        ensures
            r matches Ok((msgs, after)) && msgs.deep_view() == recipient_msgs(
                scaled_fees(coins_as_assets(coins.deep_view()), self.fee_rate),
                self.deep_view().fee_recipients,
                contract_addr@,
            ) && after.deep_view() == assets_as_coins(
                remainder_spec(coins_as_assets(coins.deep_view()), self.fee_rate),
            ) && coins_wf(after.deep_view()),
    {
        proof {
            lemma_remainder_keeps_coins_wf(coins.deep_view(), self.fee_rate);
        }
        let ghost cv = coins.deep_view();
        let ghost av = coins_as_assets(cv);
        let n = coins.coins.len();
        let mut assets: Vec<Asset> = Vec::new();
        let mut i: usize = 0;
        while i < n
            invariant
                i <= n,
                n == cv.len(),
                cv == coins.deep_view(),
                av == coins_as_assets(cv),
                assets@.len() == i,
                forall|k: int| 0 <= k < i ==> assets@[k].deep_view() == av[k],
            decreases n - i,
        {
            proof {
                assert(cv[i as int] == coins.coins@[i as int].deep_view());
            }
            let c = &coins.coins[i];
            assets.push(Asset { info: AssetInfo::Native(c.denom.clone()), amount: c.amount });
            i = i + 1;
        }
        let list = AssetList::from_vec(assets);
        proof {
            assert(list.deep_view() =~= av);
            assert forall|p: int, q: int| 0 <= p < q < av.len() implies av[p].info
                != av[q].info by {
                assert(av[p].info == AssetInfoV::Native(cv[p].denom));
                assert(av[q].info == AssetInfoV::Native(cv[q].denom));
            }
            assert forall|p: int| 0 <= p < av.len() implies av[p].info is Native by {
                assert(av[p].info == AssetInfoV::Native(cv[p].denom));
            }
        }
        let (msgs, rem) = match self.fee_msgs_from_assets(&list, contract_addr) {
            Ok(pair) => pair,
            Err(e) => {
                return Err(e);
            },
        };
        let ghost remv = remainder_spec(av, self.fee_rate);
        proof {
            if crate::fee_config::scaled_fees(av, self.fee_rate).len() == 0 {
                assert(remv == av);
            } else {
                lemma_net_of_fees_native(av, self.fee_rate);
            }
            assert(all_native(remv));
        }
        let rem_vec = rem.assets;
        let m = rem_vec.len();
        let mut out: Vec<Coin> = Vec::new();
        let mut j: usize = 0;
        while j < m
            invariant
                j <= m,
                m == remv.len(),
                remv == rem_vec.deep_view(),
                all_native(remv),
                out@.len() == j,
                forall|k: int| 0 <= k < j ==> out@[k].deep_view() == assets_as_coins(remv)[k],
            decreases m - j,
        {
            proof {
                assert(remv[j as int] == rem_vec@[j as int].deep_view());
            }
            let a = &rem_vec[j];
            match &a.info {
                AssetInfo::Native(denom) => {
                    out.push(Coin { denom: denom.clone(), amount: a.amount });
                },
                AssetInfo::Cw20(_) => {
                    proof {
                        assert(remv[j as int].info is Native);
                        assert(false);
                    }
                    return Err(
                        FeeError::Conversion {
                            reason: String::from_str("a token balance is not a native coin"),
                        },
                    );
                },
            }
            j = j + 1;
        }
        let after = Coins { coins: out };
        proof {
            assert(after.deep_view() =~= assets_as_coins(remv));
        }
        Ok((msgs, after))
    }

    /// Takes the fee out of a single native coin. A coin whose whole
    /// amount would go to fees comes back with a zero amount.
    pub fn fee_msgs_from_coin(&self, coin: Coin, contract_addr: &Addr) -> (r: Result<
        (Vec<TransferMsg>, Coin),
        FeeError,
    >)
        requires
            wf(self.deep_view()),
        ensures
            r matches Ok((msgs, after)) && after.deep_view() == (CoinV {
                denom: coin.denom@,
                amount: (coin.amount - mul_floor_spec(coin.amount, self.fee_rate)) as u128,
            }) && msgs.deep_view() == recipient_msgs(
                scaled_fees(
                    coins_as_assets(nonzero_coins(seq![coin.deep_view()])),
                    self.fee_rate,
                ),
                self.deep_view().fee_recipients,
                contract_addr@,
            ),
    {
        let ghost c0 = coin.deep_view();
        let ghost s1 = seq![c0];
        let denom = coin.denom.clone();
        proof {
            assert(s1.drop_last() =~= Seq::<CoinV>::empty());
            assert(s1.last() == c0);
            assert(nonzero_coins(Seq::<CoinV>::empty()) == Seq::<CoinV>::empty());
            crate::decimal::lemma_mul_floor_le_amount(c0.amount, self.fee_rate);
        }
        let single: Vec<Coin> = vec![coin];
        proof {
            assert(single.deep_view() =~= s1);
            if c0.amount == 0 {
                assert(nonzero_coins(s1).len() == 0);
            } else {
                assert(nonzero_coins(s1).len() == 1);
            }
            assert(distinct_denoms(nonzero_coins(s1)));
        }
        let cs = match Coins::try_from_vec(single) {
            Ok(cs) => cs,
            Err(e) => {
                proof {
                    assert(false);
                }
                return Err(e);
            },
        };
        proof {
            assert(cs.deep_view() == nonzero_coins(s1));
        }
        let (msgs, after_coins) = match self.fee_msgs_from_coins(&cs, contract_addr) {
            Ok(pair) => pair,
            Err(e) => {
                return Err(e);
            },
        };
        let amount = after_coins.amount_of(&denom);
        proof {
            let f = mul_floor_spec(c0.amount, self.fee_rate);
            let nz = nonzero_coins(s1);
            if c0.amount == 0 {
                assert(nz =~= Seq::<CoinV>::empty());
                assert(coins_as_assets(nz) =~= Seq::<AssetV>::empty());
                assert(scaled_fees(Seq::<AssetV>::empty(), self.fee_rate)
                    == Seq::<AssetV>::empty());
                assert(remainder_spec(Seq::<AssetV>::empty(), self.fee_rate)
                    =~= Seq::<AssetV>::empty());
                assert(assets_as_coins(Seq::<AssetV>::empty()) =~= Seq::<CoinV>::empty());
                assert(amount == 0);
                assert(f == 0) by (nonlinear_arith)
                    requires
                        f == mul_floor_spec(c0.amount, self.fee_rate) && c0.amount == 0,
                ;
            } else {
                assert(nz =~= s1);
                let a0 = AssetV { info: AssetInfoV::Native(c0.denom), amount: c0.amount };
                let av = coins_as_assets(nz);
                assert(av =~= seq![a0]);
                assert(av.drop_last() =~= Seq::<AssetV>::empty());
                assert(av.last() == a0);
                assert(scaled_fees(Seq::<AssetV>::empty(), self.fee_rate)
                    == Seq::<AssetV>::empty());
                assert(crate::fee_config::net_of_fees(Seq::<AssetV>::empty(), self.fee_rate)
                    == Seq::<AssetV>::empty());
                let remv = remainder_spec(av, self.fee_rate);
                if f == 0 {
                    assert(scaled_fees(av, self.fee_rate).len() == 0);
                    assert(remv == av);
                    assert(assets_as_coins(remv) =~= seq![CoinV {
                        denom: c0.denom,
                        amount: c0.amount,
                    }]);
                    assert(amount == c0.amount);
                } else {
                    assert(scaled_fees(av, self.fee_rate).len() == 1);
                    if c0.amount - f == 0 {
                        assert(crate::fee_config::net_of_fees(av, self.fee_rate)
                            =~= Seq::<AssetV>::empty());
                        assert(assets_as_coins(remv) =~= Seq::<CoinV>::empty());
                        assert(amount == 0);
                    } else {
                        assert(crate::fee_config::net_of_fees(av, self.fee_rate)
                            =~= seq![AssetV {
                            info: AssetInfoV::Native(c0.denom),
                            amount: (c0.amount - f) as u128,
                        }]);
                        assert(assets_as_coins(remv) =~= seq![CoinV {
                            denom: c0.denom,
                            amount: (c0.amount - f) as u128,
                        }]);
                        assert(amount == (c0.amount - f) as u128);
                    }
                }
            }
        }
        Ok((msgs, Coin { denom, amount }))
    }
}

} // verus!
