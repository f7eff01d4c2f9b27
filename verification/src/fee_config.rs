use crate::addr::{Addr, AddressValidator};
use crate::asset::{distinct_infos, Asset, AssetList, AssetV};
use crate::decimal::{
    lemma_mul_floor_le_amount, mul_floor, mul_floor_spec, Decimal, DECIMAL_FRACTIONAL,
};
use vstd::arithmetic::div_mod::lemma_div_is_ordered;
use vstd::prelude::*;

verus! {

/// A fee configuration: the fraction of the tokens that is taken as a
/// fee, and the recipients of the fee. Each recipient address is paired
/// with the share of the fee routed to it; for a non-zero fee rate the
/// shares must sum to exactly 1.
///
/// `T` is the address representation: `String` before validation, `Addr`
/// after.
#[derive(Clone, Debug, PartialEq, Eq)]
pub struct FeeConfig<T> {
    pub fee_rate: Decimal,
    pub fee_recipients: Vec<(T, Decimal)>,
}

/// Mathematical image of a fee configuration, with addresses as plain
/// character sequences.
pub struct FeeConfigV {
    pub fee_rate: Decimal,
    pub fee_recipients: Seq<(Seq<char>, Decimal)>,
}

impl<T: DeepView<V = Seq<char>>> DeepView for FeeConfig<T> {
    type V = FeeConfigV;

    open spec fn deep_view(&self) -> FeeConfigV {
        FeeConfigV {
            fee_rate: self.fee_rate,
            fee_recipients: self.fee_recipients.deep_view(),
        }
    }
}

/// Total weight of a recipient list, in atomic decimal units.
pub open spec fn sum_weights(rs: Seq<(Seq<char>, Decimal)>) -> int
    decreases rs.len(),
{
    if rs.len() == 0 {
        0
    } else {
        sum_weights(rs.drop_last()) + rs.last().1.atomics
    }
}

/// The fee rate is at most 100%.
pub open spec fn rate_ok(v: FeeConfigV) -> bool {
    v.fee_rate.atomics <= DECIMAL_FRACTIONAL
}

/// For a non-zero fee rate, recipient weights sum to exactly 100%.
pub open spec fn weights_sum_ok(v: FeeConfigV) -> bool {
    v.fee_rate.atomics == 0 || sum_weights(v.fee_recipients) == DECIMAL_FRACTIONAL
}

/// No recipient carries a zero weight.
pub open spec fn weights_all_positive(v: FeeConfigV) -> bool {
    forall|i: int|
        0 <= i < v.fee_recipients.len() ==> v.fee_recipients[i].1.atomics != 0
}

/// Everything `check` verifies about the numeric fields: the full
/// validation rules of a fee configuration.
pub open spec fn valid(v: FeeConfigV) -> bool {
    rate_ok(v) && weights_sum_ok(v) && weights_all_positive(v)
}

/// What the splitting functions rely on: the fee rate is bounded by 1,
/// and when it is non-zero, the weights are positive shares of a whole.
/// Every `valid` configuration is well-formed.
pub open spec fn wf(v: FeeConfigV) -> bool {
    rate_ok(v) && (v.fee_rate.atomics != 0 ==> sum_weights(v.fee_recipients)
        == DECIMAL_FRACTIONAL && weights_all_positive(v))
}

/// All recipient addresses are accepted by the validator.
pub open spec fn all_accepted<V: AddressValidator>(
    api: &V,
    rs: Seq<(Seq<char>, Decimal)>,
) -> bool {
    forall|i: int| 0 <= i < rs.len() ==> api.accepts(rs[i].0)
}

/// Why a fee operation was refused.
#[derive(Clone, Debug, PartialEq, Eq)]
pub enum FeeError {
    /// The fee rate exceeds 100%.
    InvalidFeeRate,
    /// A non-zero fee rate whose recipient weights do not sum to 100%.
    InvalidRecipientWeightSum,
    /// A recipient with a zero weight.
    ZeroRecipientWeight,
    /// A recipient address the validator refused.
    InvalidRecipientAddress { reason: String },
    /// A fee larger than the balance it is taken from. Unreachable for a
    /// well-formed configuration; kept a hard failure, never a silent
    /// clamp.
    Arithmetic,
    /// Two balance entries named the same coin denomination.
    DuplicateDenom,
    /// A balance entry could not be represented as a native coin.
    Conversion { reason: String },
}

impl FeeError {
    /// Human-readable description of the error.
    pub fn message(&self) -> (r: String)
        ensures
            self matches FeeError::InvalidFeeRate ==> r@ == "Fee rate can't be higher than 100%"@,
            self matches FeeError::InvalidRecipientWeightSum ==> r@
                == "Sum of fee recipient percentages must be 100%"@,
            self matches FeeError::ZeroRecipientWeight ==> r@
                == "Fee recipient percentages must be greater than zero"@,
            self matches FeeError::InvalidRecipientAddress { reason } ==> r@ == reason@,
            self matches FeeError::Arithmetic ==> r@ == "fee exceeds the available balance"@,
            self matches FeeError::DuplicateDenom ==> r@ == "Duplicate denom"@,
            self matches FeeError::Conversion { reason } ==> r@ == reason@,
    {
        match self {
            FeeError::InvalidFeeRate => String::from_str("Fee rate can't be higher than 100%"),
            FeeError::InvalidRecipientWeightSum => String::from_str(
                "Sum of fee recipient percentages must be 100%",
            ),
            FeeError::ZeroRecipientWeight => String::from_str(
                "Fee recipient percentages must be greater than zero",
            ),
            FeeError::InvalidRecipientAddress { reason } => reason.clone(),
            FeeError::Arithmetic => String::from_str("fee exceeds the available balance"),
            FeeError::DuplicateDenom => String::from_str("Duplicate denom"),
            FeeError::Conversion { reason } => reason.clone(),
        }
    }
}

/// Weights are never negative, so the sum only grows as the list does.
proof fn lemma_sum_weights_nonneg(rs: Seq<(Seq<char>, Decimal)>)
    ensures
        sum_weights(rs) >= 0,
    decreases rs.len(),
{
    if rs.len() > 0 {
        lemma_sum_weights_nonneg(rs.drop_last());
    }
}

/// Extending a prefix by one element adds that element's weight.
proof fn lemma_sum_weights_take_succ(rs: Seq<(Seq<char>, Decimal)>, i: int)
    requires
        0 <= i < rs.len(),
    ensures
        sum_weights(rs.take(i + 1)) == sum_weights(rs.take(i)) + rs[i].1.atomics,
{
    assert(rs.take(i + 1).drop_last() =~= rs.take(i));
    assert(rs.take(i + 1).last() == rs[i]);
}

/// A prefix never weighs more than the whole list.
proof fn lemma_sum_weights_take_le(rs: Seq<(Seq<char>, Decimal)>, i: int)
    requires
        0 <= i <= rs.len(),
    ensures
        sum_weights(rs.take(i)) <= sum_weights(rs),
    decreases rs.len() - i,
{
    if i == rs.len() {
        assert(rs.take(i) =~= rs);
    } else {
        lemma_sum_weights_take_succ(rs, i);
        lemma_sum_weights_take_le(rs, i + 1);
    }
}

/// Each weight is at most the sum of the whole list.
proof fn lemma_weight_le_sum(rs: Seq<(Seq<char>, Decimal)>, i: int)
    requires
        0 <= i < rs.len(),
    ensures
        rs[i].1.atomics <= sum_weights(rs),
    decreases rs.len(),
{
    if i == rs.len() - 1 {
        lemma_sum_weights_nonneg(rs.drop_last());
    } else {
        lemma_weight_le_sum(rs.drop_last(), i);
        assert(rs.drop_last()[i] == rs[i]);
    }
}

impl FeeConfig<String> {
    /// Validates the configuration and returns its address-checked form.
    ///
    /// Exactly one of the following happens, in this order of precedence:
    /// a fee rate above 100% is refused; a non-zero fee rate whose weights
    /// do not sum to 100% is refused; a zero weight is refused; an address
    /// the validator rejects is refused; otherwise the same configuration
    /// is returned with every address validated.
    pub fn check<V: AddressValidator>(&self, api: &V) -> (r: Result<
        FeeConfig<Addr>,
        FeeError,
    >)
        ensures
            ({
                let v = self.deep_view();
                match r {
                    Ok(out) => valid(v) && all_accepted(api, v.fee_recipients) && out.deep_view()
                        == v,
                    Err(e) => match e {
                        FeeError::InvalidFeeRate => !rate_ok(v),
                        FeeError::InvalidRecipientWeightSum => rate_ok(v) && !weights_sum_ok(v),
                        FeeError::ZeroRecipientWeight => rate_ok(v) && weights_sum_ok(v)
                            && !weights_all_positive(v),
                        FeeError::InvalidRecipientAddress { .. } => valid(v) && !all_accepted(
                            api,
                            v.fee_recipients,
                        ),
                        _ => false,
                    },
                }
            }),
    {
        let ghost v = self.deep_view();
        let n = self.fee_recipients.len();
        // Fee rate must be between 0 and 100%
        if self.fee_rate.atomics > DECIMAL_FRACTIONAL {
            return Err(FeeError::InvalidFeeRate);
        }
        // If the fee rate is not zero, the recipient weights must sum to
        // 100%
        if self.fee_rate.atomics != 0 {
            let mut i: usize = 0;
            let mut acc: u128 = 0;
            while i < n
                invariant
                    i <= n,
                    n == v.fee_recipients.len(),
                    v == self.deep_view(),
                    rate_ok(v),
                    v.fee_rate.atomics != 0,
                    acc == sum_weights(v.fee_recipients.take(i as int)),
                decreases n - i,
            {
                proof {
                    assert(v.fee_recipients[i as int].1 == self.fee_recipients@[i as int].1);
                    lemma_sum_weights_take_succ(v.fee_recipients, i as int);
                }
                let w = self.fee_recipients[i].1.atomics;
                match acc.checked_add(w) {
                    Some(s) => {
                        acc = s;
                    },
                    None => {
                        // The partial sum already exceeds what a weight
                        // total can express, so the total cannot be 100%.
                        proof {
                            lemma_sum_weights_take_le(v.fee_recipients, i as int + 1);
                        }
                        return Err(FeeError::InvalidRecipientWeightSum);
                    },
                }
                i = i + 1;
            }
            proof {
                assert(v.fee_recipients.take(n as int) =~= v.fee_recipients);
            }
            if acc != DECIMAL_FRACTIONAL {
                return Err(FeeError::InvalidRecipientWeightSum);
            }
        }
        // Recipient weights must not be zero
        let mut i: usize = 0;
        while i < n
            invariant
                i <= n,
                n == v.fee_recipients.len(),
                v == self.deep_view(),
                rate_ok(v),
                weights_sum_ok(v),
                forall|k: int| 0 <= k < i ==> v.fee_recipients[k].1.atomics != 0,
            decreases n - i,
        {
            proof {
                assert(v.fee_recipients[i as int].1 == self.fee_recipients@[i as int].1);
            }
            if self.fee_recipients[i].1.atomics == 0 {
                return Err(FeeError::ZeroRecipientWeight);
            }
            i = i + 1;
        }
        // Validate every recipient address
        let mut out: Vec<(Addr, Decimal)> = Vec::new();
        let mut i: usize = 0;
        while i < n
            invariant
                i <= n,
                n == v.fee_recipients.len(),
                v == self.deep_view(),
                valid(v),
                out@.len() == i,
                forall|k: int|
                    0 <= k < i ==> #[trigger] out@[k].deep_view() == v.fee_recipients[k]
                        && api.accepts(v.fee_recipients[k].0),
            decreases n - i,
        {
            proof {
                assert(self.fee_recipients.deep_view()[i as int]
                    == v.fee_recipients[i as int]);
            }
            let pair = &self.fee_recipients[i];
            match api.validate_address(&pair.0) {
                Ok(addr) => {
                    out.push((addr, pair.1));
                },
                Err(reason) => {
                    return Err(FeeError::InvalidRecipientAddress { reason });
                },
            }
            i = i + 1;
        }
        let result = FeeConfig { fee_rate: self.fee_rate, fee_recipients: out };
        proof {
            assert(result.deep_view().fee_recipients =~= v.fee_recipients);
        }
        Ok(result)
    }
}

impl<T: DeepView<V = Seq<char>>> FeeConfig<T> {
    /// Checks the numeric rules the splitting functions rely on: the fee
    /// rate is at most 100%, and a non-zero rate comes with positive
    /// weights summing to exactly 100%. Succeeds exactly on well-formed
    /// configurations, so a caller holding an arbitrary value can
    /// establish `wf` before splitting; addresses are not looked at.
    pub fn check_wf(&self) -> (r: Result<(), FeeError>)
        ensures
            r.is_ok() == wf(self.deep_view()),
            ({
                let v = self.deep_view();
                match r {
                    Ok(_) => wf(v),
                    Err(e) => match e {
                        FeeError::InvalidFeeRate => !rate_ok(v),
                        FeeError::InvalidRecipientWeightSum => rate_ok(v) && v.fee_rate.atomics
                            != 0 && sum_weights(v.fee_recipients) != DECIMAL_FRACTIONAL,
                        FeeError::ZeroRecipientWeight => rate_ok(v) && v.fee_rate.atomics != 0
                            && sum_weights(v.fee_recipients) == DECIMAL_FRACTIONAL
                            && !weights_all_positive(v),
                        _ => false,
                    },
                }
            }),
    {
        let ghost v = self.deep_view();
        let n = self.fee_recipients.len();
        if self.fee_rate.atomics > DECIMAL_FRACTIONAL {
            return Err(FeeError::InvalidFeeRate);
        }
        if self.fee_rate.atomics != 0 {
            let mut i: usize = 0;
            let mut acc: u128 = 0;
            while i < n
                invariant
                    i <= n,
                    n == v.fee_recipients.len(),
                    v == self.deep_view(),
                    rate_ok(v),
                    v.fee_rate.atomics != 0,
                    acc == sum_weights(v.fee_recipients.take(i as int)),
                decreases n - i,
            {
                proof {
                    assert(v.fee_recipients[i as int].1 == self.fee_recipients@[i as int].1);
                    lemma_sum_weights_take_succ(v.fee_recipients, i as int);
                }
                let w = self.fee_recipients[i].1.atomics;
                match acc.checked_add(w) {
                    Some(s) => {
                        acc = s;
                    },
                    None => {
                        proof {
                            lemma_sum_weights_take_le(v.fee_recipients, i as int + 1);
                        }
                        return Err(FeeError::InvalidRecipientWeightSum);
                    },
                }
                i = i + 1;
            }
            proof {
                assert(v.fee_recipients.take(n as int) =~= v.fee_recipients);
            }
            if acc != DECIMAL_FRACTIONAL {
                return Err(FeeError::InvalidRecipientWeightSum);
            }
            let mut i: usize = 0;
            while i < n
                invariant
                    i <= n,
                    n == v.fee_recipients.len(),
                    v == self.deep_view(),
                    rate_ok(v),
                    v.fee_rate.atomics != 0,
                    sum_weights(v.fee_recipients) == DECIMAL_FRACTIONAL,
                    forall|k: int| 0 <= k < i ==> v.fee_recipients[k].1.atomics != 0,
                decreases n - i,
            {
                proof {
                    assert(v.fee_recipients[i as int].1 == self.fee_recipients@[i as int].1);
                }
                if self.fee_recipients[i].1.atomics == 0 {
                    return Err(FeeError::ZeroRecipientWeight);
                }
                i = i + 1;
            }
        }
        Ok(())
    }
}

impl From<FeeConfig<Addr>> for FeeConfig<String> {
    /// Converting validated addresses back to raw strings is lossless and
    /// always succeeds.
    fn from(value: FeeConfig<Addr>) -> (r: FeeConfig<String>)
        ensures
            r.deep_view() == value.deep_view(),
    {
        let ghost v = value.deep_view();
        let mut rs: Vec<(String, Decimal)> = Vec::new();
        let mut rest = value.fee_recipients;
        let n = rest.len();
        let mut i: usize = 0;
        proof {
            assert(rest.deep_view() == v.fee_recipients);
        }
        while i < n
            invariant
                i <= n,
                n == rest@.len(),
                rest.deep_view() == v.fee_recipients,
                rs@.len() == i,
                forall|k: int|
                    0 <= k < i ==> #[trigger] rs@[k].deep_view() == v.fee_recipients[k],
            decreases n - i,
        {
            proof {
                assert(rest.deep_view()[i as int] == v.fee_recipients[i as int]);
            }
            let pair = &rest[i];
            rs.push((pair.0.dup().into_string(), pair.1));
            i = i + 1;
        }
        let result = FeeConfig { fee_rate: value.fee_rate, fee_recipients: rs };
        proof {
            assert(result.deep_view().fee_recipients =~= v.fee_recipients);
        }
        result
    }
}

impl vstd::std_specs::convert::FromSpecImpl<FeeConfig<Addr>> for FeeConfig<String> {
    open spec fn obeys_from_spec() -> bool {
        false
    }

    open spec fn from_spec(v: FeeConfig<Addr>) -> Self {
        choose|r: FeeConfig<String>| r.deep_view() == v.deep_view()
    }
}

/// One transfer instruction: all the non-zero amounts owed to one
/// recipient, in the order of the balance set they were taken from.
#[derive(Clone, Debug, PartialEq, Eq)]
pub struct TransferMsg {
    pub recipient: Addr,
    pub assets: Vec<Asset>,
}

/// Mathematical image of a `TransferMsg`.
pub struct TransferMsgV {
    pub recipient: Seq<char>,
    pub assets: Seq<AssetV>,
}

impl DeepView for TransferMsg {
    type V = TransferMsgV;

    open spec fn deep_view(&self) -> TransferMsgV {
        TransferMsgV { recipient: self.recipient@, assets: self.assets.deep_view() }
    }
}

/// Each balance scaled by `rate`, rounded down, with zero amounts
/// discarded, in balance order.
pub open spec fn scaled_fees(assets: Seq<AssetV>, rate: Decimal) -> Seq<AssetV>
    decreases assets.len(),
{
    if assets.len() == 0 {
        Seq::empty()
    } else {
        let rest = scaled_fees(assets.drop_last(), rate);
        let f = mul_floor_spec(assets.last().amount, rate);
        if f == 0 {
            rest
        } else {
            rest.push(AssetV { info: assets.last().info, amount: f as u128 })
        }
    }
}

/// Each balance with its own fee taken out, entries that reach zero
/// discarded.
pub open spec fn net_of_fees(assets: Seq<AssetV>, rate: Decimal) -> Seq<AssetV>
    decreases assets.len(),
{
    if assets.len() == 0 {
        Seq::empty()
    } else {
        let rest = net_of_fees(assets.drop_last(), rate);
        let net = assets.last().amount - mul_floor_spec(assets.last().amount, rate);
        if net == 0 {
            rest
        } else {
            rest.push(AssetV { info: assets.last().info, amount: net as u128 })
        }
    }
}

/// What remains of a balance set after the fee is taken: untouched when
/// no entry owes a non-zero fee, otherwise each entry net of its fee with
/// zero entries discarded.
pub open spec fn remainder_spec(assets: Seq<AssetV>, rate: Decimal) -> Seq<AssetV> {
    if scaled_fees(assets, rate).len() == 0 {
        assets
    } else {
        net_of_fees(assets, rate)
    }
}

/// The instruction owed to one recipient for the fee set `fees`: its
/// weighted share of every fee entry, zero amounts discarded; nothing at
/// all for the distributing contract itself or when every share is zero.
pub open spec fn msgs_for_recipient(
    fees: Seq<AssetV>,
    recipient: (Seq<char>, Decimal),
    contract: Seq<char>,
) -> Seq<TransferMsgV> {
    if recipient.0 == contract {
        Seq::empty()
    } else {
        let legs = scaled_fees(fees, recipient.1);
        if legs.len() == 0 {
            Seq::empty()
        } else {
            seq![TransferMsgV { recipient: recipient.0, assets: legs }]
        }
    }
}

/// The transfer instructions for a whole recipient list, in list order.
pub open spec fn recipient_msgs(
    fees: Seq<AssetV>,
    rs: Seq<(Seq<char>, Decimal)>,
    contract: Seq<char>,
) -> Seq<TransferMsgV>
    decreases rs.len(),
{
    if rs.len() == 0 {
        Seq::empty()
    } else {
        recipient_msgs(fees, rs.drop_last(), contract) + msgs_for_recipient(
            fees,
            rs.last(),
            contract,
        )
    }
}

proof fn lemma_recipient_msgs_take_succ(
    fees: Seq<AssetV>,
    rs: Seq<(Seq<char>, Decimal)>,
    contract: Seq<char>,
    i: int,
)
    requires
        0 <= i < rs.len(),
    ensures
        recipient_msgs(fees, rs.take(i + 1), contract) == recipient_msgs(
            fees,
            rs.take(i),
            contract,
        ) + msgs_for_recipient(fees, rs[i], contract),
{
    assert(rs.take(i + 1).drop_last() =~= rs.take(i));
    assert(rs.take(i + 1).last() == rs[i]);
}

proof fn lemma_scaled_fees_take_succ(assets: Seq<AssetV>, rate: Decimal, j: int)
    requires
        0 <= j < assets.len(),
    ensures
        scaled_fees(assets.take(j + 1), rate) == ({
            let rest = scaled_fees(assets.take(j), rate);
            let f = mul_floor_spec(assets[j].amount, rate);
            if f == 0 {
                rest
            } else {
                rest.push(AssetV { info: assets[j].info, amount: f as u128 })
            }
        }),
{
    assert(assets.take(j + 1).drop_last() =~= assets.take(j));
    assert(assets.take(j + 1).last() == assets[j]);
}

proof fn lemma_net_of_fees_take_succ(assets: Seq<AssetV>, rate: Decimal, j: int)
    requires
        0 <= j < assets.len(),
    ensures
        net_of_fees(assets.take(j + 1), rate) == ({
            let rest = net_of_fees(assets.take(j), rate);
            let net = assets[j].amount - mul_floor_spec(assets[j].amount, rate);
            if net == 0 {
                rest
            } else {
                rest.push(AssetV { info: assets[j].info, amount: net as u128 })
            }
        }),
{
    assert(assets.take(j + 1).drop_last() =~= assets.take(j));
    assert(assets.take(j + 1).last() == assets[j]);
}

/// A zero rate scales every balance to nothing.
pub proof fn lemma_zero_rate_no_fees(assets: Seq<AssetV>, rate: Decimal)
    requires
        rate.atomics == 0,
    ensures
        scaled_fees(assets, rate) == Seq::<AssetV>::empty(),
        remainder_spec(assets, rate) == assets,
    decreases assets.len(),
{
    if assets.len() > 0 {
        lemma_zero_rate_no_fees(assets.drop_last(), rate);
    }
    assert(scaled_fees(assets, rate) =~= Seq::<AssetV>::empty());
}

/// With nothing to distribute, no recipient is owed an instruction.
pub proof fn lemma_no_fees_no_msgs(rs: Seq<(Seq<char>, Decimal)>, contract: Seq<char>)
    ensures
        recipient_msgs(Seq::<AssetV>::empty(), rs, contract) == Seq::<TransferMsgV>::empty(),
    decreases rs.len(),
{
    if rs.len() > 0 {
        lemma_no_fees_no_msgs(rs.drop_last(), contract);
        assert(recipient_msgs(Seq::<AssetV>::empty(), rs, contract)
            =~= Seq::<TransferMsgV>::empty());
    }
}

/// Every scaled amount is non-zero: zero legs are discarded.
pub proof fn lemma_scaled_fees_nonzero(assets: Seq<AssetV>, rate: Decimal)
    requires
        rate.atomics <= DECIMAL_FRACTIONAL,
    ensures
        forall|l: int|
            0 <= l < scaled_fees(assets, rate).len() ==> #[trigger] scaled_fees(assets, rate)[l]
                .amount != 0,
    decreases assets.len(),
{
    if assets.len() > 0 {
        lemma_scaled_fees_nonzero(assets.drop_last(), rate);
        let rest = scaled_fees(assets.drop_last(), rate);
        let f = mul_floor_spec(assets.last().amount, rate);
        if f == 0 {
            assert(scaled_fees(assets, rate) == rest);
        } else {
            lemma_mul_floor_le_amount(assets.last().amount, rate);
            let whole = rest.push(AssetV { info: assets.last().info, amount: f as u128 });
            assert(scaled_fees(assets, rate) == whole);
            assert forall|l: int| 0 <= l < whole.len() implies whole[l].amount != 0 by {
                if l < rest.len() {
                    assert(whole[l] == rest[l]);
                }
            }
        }
    }
}

/// No instruction is ever addressed to the distributing contract, and
/// none is empty or carries a zero amount: a transfer instruction only
/// exists where value actually moves away.
pub proof fn lemma_msgs_well_formed(
    fees: Seq<AssetV>,
    rs: Seq<(Seq<char>, Decimal)>,
    contract: Seq<char>,
)
    requires
        forall|i: int| 0 <= i < rs.len() ==> rs[i].1.atomics <= DECIMAL_FRACTIONAL,
    ensures
        forall|k: int|
            0 <= k < recipient_msgs(fees, rs, contract).len()
                ==> #[trigger] recipient_msgs(fees, rs, contract)[k].recipient != contract,
        forall|k: int|
            0 <= k < recipient_msgs(fees, rs, contract).len()
                ==> #[trigger] recipient_msgs(fees, rs, contract)[k].assets.len() > 0,
        forall|k: int, l: int|
            0 <= k < recipient_msgs(fees, rs, contract).len() && 0 <= l < recipient_msgs(
                fees,
                rs,
                contract,
            )[k].assets.len() ==> #[trigger] recipient_msgs(fees, rs, contract)[k].assets[l].amount
                != 0,
    decreases rs.len(),
{
    if rs.len() > 0 {
        assert(rs[rs.len() - 1].1.atomics <= DECIMAL_FRACTIONAL);
        assert(forall|i: int|
            0 <= i < rs.drop_last().len() ==> rs.drop_last()[i] == rs[i]);
        lemma_msgs_well_formed(fees, rs.drop_last(), contract);
        lemma_scaled_fees_nonzero(fees, rs.last().1);
    }
}

/// Every entry of the net set takes its asset from some input entry.
pub(crate) proof fn lemma_net_of_fees_member_infos(s: Seq<AssetV>, rate: Decimal)
    ensures
        forall|l: int|
            #![trigger net_of_fees(s, rate)[l]]
            0 <= l < net_of_fees(s, rate).len() ==> exists|k: int|
                0 <= k < s.len() && net_of_fees(s, rate)[l].info == #[trigger] s[k].info,
    decreases s.len(),
{
    if s.len() > 0 {
        lemma_net_of_fees_member_infos(s.drop_last(), rate);
        let rest = net_of_fees(s.drop_last(), rate);
        let whole = net_of_fees(s, rate);
        assert(forall|k: int| 0 <= k < s.drop_last().len() ==> s.drop_last()[k] == s[k]);
        assert forall|l: int| #![trigger whole[l]] 0 <= l < whole.len() implies exists|k: int|
            0 <= k < s.len() && whole[l].info == #[trigger] s[k].info by {
            if l < rest.len() {
                assert(whole[l] == rest[l]);
                let k = choose|k: int|
                    0 <= k < s.drop_last().len() && rest[l].info == #[trigger] s.drop_last()[k]
                        .info;
                assert(whole[l].info == s[k].info);
            } else {
                assert(whole[l].info == s[s.len() - 1].info);
            }
        }
    }
}

/// Taking fees out of a balance set keyed by asset keeps it keyed by
/// asset: no two net entries name the same asset.
pub(crate) proof fn lemma_net_of_fees_distinct(s: Seq<AssetV>, rate: Decimal)
    requires
        distinct_infos(s),
    ensures
        distinct_infos(net_of_fees(s, rate)),
    decreases s.len(),
{
    if s.len() > 0 {
        assert(forall|k: int| 0 <= k < s.drop_last().len() ==> s.drop_last()[k] == s[k]);
        lemma_net_of_fees_distinct(s.drop_last(), rate);
        lemma_net_of_fees_member_infos(s.drop_last(), rate);
        let rest = net_of_fees(s.drop_last(), rate);
        let whole = net_of_fees(s, rate);
        let net = s.last().amount - mul_floor_spec(s.last().amount, rate);
        if net != 0 {
            assert forall|l: int| 0 <= l < rest.len() implies rest[l].info != s.last().info by {
                let k = choose|k: int|
                    0 <= k < s.drop_last().len() && rest[l].info == #[trigger] s.drop_last()[k]
                        .info;
                assert(s[k].info != s[s.len() - 1].info);
            }
            assert forall|i: int, j: int| 0 <= i < j < whole.len() implies whole[i].info
                != whole[j].info by {
                if j < rest.len() {
                    assert(whole[i] == rest[i] && whole[j] == rest[j]);
                } else {
                    assert(whole[i] == rest[i]);
                    assert(whole[j].info == s.last().info);
                }
            }
        }
    }
}

/// Every net entry carries a non-zero amount: entries that reach zero
/// are discarded.
pub(crate) proof fn lemma_net_of_fees_nonzero(s: Seq<AssetV>, rate: Decimal)
    requires
        rate.atomics <= DECIMAL_FRACTIONAL,
    ensures
        forall|l: int|
            0 <= l < net_of_fees(s, rate).len() ==> #[trigger] net_of_fees(s, rate)[l].amount
                != 0,
    decreases s.len(),
{
    if s.len() > 0 {
        lemma_net_of_fees_nonzero(s.drop_last(), rate);
        let rest = net_of_fees(s.drop_last(), rate);
        let whole = net_of_fees(s, rate);
        let net = s.last().amount - mul_floor_spec(s.last().amount, rate);
        if net != 0 {
            lemma_mul_floor_le_amount(s.last().amount, rate);
            assert forall|l: int| 0 <= l < whole.len() implies whole[l].amount != 0 by {
                if l < rest.len() {
                    assert(whole[l] == rest[l]);
                }
            }
        }
    }
}

/// An asset whose every occurrence scales to nothing leaves no entry in
/// the scaled set.
proof fn lemma_scaled_fees_excludes(assets: Seq<AssetV>, rate: Decimal, info: crate::asset::AssetInfoV)
    requires
        forall|k: int|
            0 <= k < assets.len() && assets[k].info == info ==> mul_floor_spec(
                assets[k].amount,
                rate,
            ) == 0,
    ensures
        forall|l: int|
            0 <= l < scaled_fees(assets, rate).len() ==> #[trigger] scaled_fees(assets, rate)[l]
                .info != info,
    decreases assets.len(),
{
    if assets.len() > 0 {
        assert(forall|k: int| 0 <= k < assets.drop_last().len() ==> assets.drop_last()[k]
            == assets[k]);
        lemma_scaled_fees_excludes(assets.drop_last(), rate, info);
        let rest = scaled_fees(assets.drop_last(), rate);
        let whole = scaled_fees(assets, rate);
        assert(assets.last() == assets[assets.len() - 1]);
        if mul_floor_spec(assets.last().amount, rate) != 0 {
            assert forall|l: int| 0 <= l < whole.len() implies whole[l].info != info by {
                if l < rest.len() {
                    assert(whole[l] == rest[l]);
                }
            }
        }
    }
}

/// An asset absent from the fee set never appears in any instruction.
proof fn lemma_no_legs_for_absent_info(
    fees: Seq<AssetV>,
    rs: Seq<(Seq<char>, Decimal)>,
    contract: Seq<char>,
    info: crate::asset::AssetInfoV,
)
    requires
        forall|k: int| 0 <= k < fees.len() ==> fees[k].info != info,
    ensures
        forall|i: int, l: int|
            0 <= i < recipient_msgs(fees, rs, contract).len() && 0 <= l < recipient_msgs(
                fees,
                rs,
                contract,
            )[i].assets.len() ==> #[trigger] recipient_msgs(fees, rs, contract)[i].assets[l].info
                != info,
    decreases rs.len(),
{
    if rs.len() > 0 {
        lemma_no_legs_for_absent_info(fees, rs.drop_last(), contract, info);
        lemma_scaled_fees_excludes(fees, rs.last().1, info);
    }
}

/// A denomination that only appears with a zero amount in the input
/// never produces a transfer leg, whatever the rate, the recipients and
/// the weights; it may still appear in the remainder set.
pub proof fn lemma_zero_amount_entry_never_transfers(
    assets: Seq<AssetV>,
    rate: Decimal,
    rs: Seq<(Seq<char>, Decimal)>,
    contract: Seq<char>,
    k: int,
)
    requires
        0 <= k < assets.len(),
        assets[k].amount == 0,
        distinct_infos(assets),
    ensures
        ({
            let msgs = recipient_msgs(scaled_fees(assets, rate), rs, contract);
            forall|i: int, l: int|
                0 <= i < msgs.len() && 0 <= l < msgs[i].assets.len() ==> #[trigger] msgs[i]
                    .assets[l].info != assets[k].info
        }),
{
    let d = DECIMAL_FRACTIONAL as int;
    assert forall|j: int|
        0 <= j < assets.len() && assets[j].info == assets[k].info implies mul_floor_spec(
        assets[j].amount,
        rate,
    ) == 0 by {
        if j < k {
            assert(false);
        } else if j > k {
            assert(false);
        } else {
            assert((0 * rate.atomics as int) / d == 0) by (nonlinear_arith)
                requires
                    d > 0,
            ;
        }
    }
    lemma_scaled_fees_excludes(assets, rate, assets[k].info);
    lemma_no_legs_for_absent_info(scaled_fees(assets, rate), rs, contract, assets[k].info);
}

/// Rounding down never gains from splitting: the two quotients together
/// stay below the quotient of the sum.
proof fn lemma_div_sum_ge(u: int, v: int, d: int)
    requires
        u >= 0,
        v >= 0,
        d > 0,
    ensures
        u / d + v / d <= (u + v) / d,
{
    vstd::arithmetic::div_mod::lemma_fundamental_div_mod(u, d);
    vstd::arithmetic::div_mod::lemma_fundamental_div_mod(v, d);
    vstd::arithmetic::div_mod::lemma_fundamental_div_mod(u + v, d);
    vstd::arithmetic::div_mod::lemma_mod_bound(u, d);
    vstd::arithmetic::div_mod::lemma_mod_bound(v, d);
    vstd::arithmetic::div_mod::lemma_mod_bound(u + v, d);
    let q1 = u / d;
    let q2 = v / d;
    let q3 = (u + v) / d;
    assert(d * (q1 + q2) <= u + v) by (nonlinear_arith)
        requires
            d * q1 <= u && d * q2 <= v,
    ;
    assert(u + v < d * (q3 + 1)) by (nonlinear_arith)
        requires
            d * q3 == u + v - (u + v) % d && (u + v) % d < d,
    ;
    assert(q1 + q2 < q3 + 1) by (nonlinear_arith)
        requires
            d * (q1 + q2) < d * (q3 + 1) && d > 0,
    ;
}

/// The rounded-down shares of one amount under a weight list, summed.
pub open spec fn shares(amount: u128, rs: Seq<(Seq<char>, Decimal)>) -> int
    decreases rs.len(),
{
    if rs.len() == 0 {
        0
    } else {
        shares(amount, rs.drop_last()) + mul_floor_spec(amount, rs.last().1)
    }
}

proof fn lemma_shares_le_scaled(amount: u128, rs: Seq<(Seq<char>, Decimal)>)
    ensures
        0 <= shares(amount, rs) <= (amount * sum_weights(rs)) / (DECIMAL_FRACTIONAL as int),
    decreases rs.len(),
{
    let d = DECIMAL_FRACTIONAL as int;
    if rs.len() == 0 {
    } else {
        let rest = rs.drop_last();
        let w = rs.last().1.atomics as int;
        lemma_shares_le_scaled(amount, rest);
        lemma_sum_weights_nonneg(rest);
        vstd::arithmetic::mul::lemma_mul_nonnegative(amount as int, sum_weights(rest));
        vstd::arithmetic::mul::lemma_mul_nonnegative(amount as int, w);
        vstd::arithmetic::div_mod::lemma_div_pos_is_pos(amount * w, d);
        lemma_div_sum_ge(amount * sum_weights(rest), amount * w, d);
        vstd::arithmetic::mul::lemma_mul_is_distributive_add(
            amount as int,
            sum_weights(rest),
            w,
        );
    }
}

/// Truncation never overpays: however one fee amount is split across a
/// weight list whose total is at most 1, the recipients' rounded-down
/// shares together never exceed that amount. Dust lost to rounding is
/// simply not sent anywhere; it is never re-distributed.
pub proof fn lemma_split_never_overpays(amount: u128, rs: Seq<(Seq<char>, Decimal)>)
    requires
        sum_weights(rs) <= DECIMAL_FRACTIONAL,
    ensures
        0 <= shares(amount, rs) <= amount,
{
    let d = DECIMAL_FRACTIONAL as int;
    lemma_shares_le_scaled(amount, rs);
    lemma_sum_weights_nonneg(rs);
    assert(amount * sum_weights(rs) <= amount * d) by (nonlinear_arith)
        requires
            sum_weights(rs) <= d && amount >= 0,
    ;
    lemma_div_is_ordered(amount * sum_weights(rs), amount * d, d);
    assert((amount * d) / d == amount) by (nonlinear_arith)
        requires
            d == DECIMAL_FRACTIONAL as int,
    ;
}

impl FeeConfig<Addr> {
    /// A fresh copy of the configuration.
    pub fn dup(&self) -> (r: FeeConfig<Addr>)
        ensures
            r.deep_view() == self.deep_view(),
    {
        let ghost v = self.deep_view();
        let mut rs: Vec<(Addr, Decimal)> = Vec::new();
        let n = self.fee_recipients.len();
        let mut i: usize = 0;
        while i < n
            invariant
                i <= n,
                n == v.fee_recipients.len(),
                v == self.deep_view(),
                rs@.len() == i,
                forall|k: int|
                    0 <= k < i ==> #[trigger] rs@[k].deep_view() == v.fee_recipients[k],
            decreases n - i,
        {
            proof {
                assert(v.fee_recipients[i as int] == self.fee_recipients@[i as int].deep_view());
            }
            let pair = &self.fee_recipients[i];
            rs.push((pair.0.dup(), pair.1));
            i = i + 1;
        }
        let r = FeeConfig { fee_rate: self.fee_rate, fee_recipients: rs };
        proof {
            assert(r.deep_view().fee_recipients =~= v.fee_recipients);
        }
        r
    }

    /// Builds the transfer instructions that route the fee set `assets`
    /// to the recipients: nothing for a zero fee rate, otherwise each
    /// recipient's weighted, zero-filtered share in list order.
    pub fn transfer_assets_msgs(&self, assets: &AssetList, contract_addr: &Addr) -> (r: Result<
        Vec<TransferMsg>,
        FeeError,
    >)
        requires
            wf(self.deep_view()),
        ensures
            r matches Ok(msgs) && msgs.deep_view() == (if self.fee_rate.atomics == 0 {
                Seq::<TransferMsgV>::empty()
            } else {
                recipient_msgs(
                    assets.deep_view(),
                    self.deep_view().fee_recipients,
                    contract_addr@,
                )
            }),
    {
        if self.fee_rate.is_zero() {
            return Ok(Vec::new());
        }
        let ghost v = self.deep_view();
        let ghost av = assets.deep_view();
        let ghost c = contract_addr@;
        let mut msgs: Vec<TransferMsg> = Vec::new();
        let n = self.fee_recipients.len();
        let m = assets.assets.len();
        let mut i: usize = 0;
        while i < n
            invariant
                i <= n,
                n == v.fee_recipients.len(),
                m == av.len(),
                v == self.deep_view(),
                av == assets.deep_view(),
                c == contract_addr@,
                wf(v),
                v.fee_rate.atomics != 0,
                msgs.deep_view() == recipient_msgs(av, v.fee_recipients.take(i as int), c),
            decreases n - i,
        {
            proof {
                assert(v.fee_recipients[i as int] == self.fee_recipients@[i as int].deep_view());
                lemma_recipient_msgs_take_succ(av, v.fee_recipients, c, i as int);
            }
            let pair = &self.fee_recipients[i];
            if !pair.0.same_as(contract_addr) {
                let ghost w = v.fee_recipients[i as int].1;
                proof {
                    lemma_weight_le_sum(v.fee_recipients, i as int);
                }
                let mut legs: Vec<Asset> = Vec::new();
                let mut j: usize = 0;
                while j < m
                    invariant
                        j <= m,
                        m == av.len(),
                        av == assets.deep_view(),
                        w.atomics <= DECIMAL_FRACTIONAL,
                        w == pair.1,
                        legs.deep_view() == scaled_fees(av.take(j as int), w),
                    decreases m - j,
                {
                    proof {
                        assert(av[j as int] == assets.assets@[j as int].deep_view());
                        lemma_mul_floor_le_amount(assets.assets@[j as int].amount, w);
                        lemma_scaled_fees_take_succ(av, w, j as int);
                    }
                    let a = &assets.assets[j];
                    let f = mul_floor(a.amount, pair.1);
                    if f != 0 {
                        legs.push(Asset { info: a.info.dup(), amount: f });
                        proof {
                            assert(legs.deep_view() =~= scaled_fees(av.take(j as int + 1), w));
                        }
                    }
                    j = j + 1;
                }
                proof {
                    assert(av.take(m as int) =~= av);
                }
                if legs.len() > 0 {
                    msgs.push(TransferMsg { recipient: pair.0.dup(), assets: legs });
                    proof {
                        assert(msgs.deep_view() =~= recipient_msgs(
                            av,
                            v.fee_recipients.take(i as int + 1),
                            c,
                        ));
                    }
                } else {
                    proof {
                        assert(msgs.deep_view() =~= recipient_msgs(
                            av,
                            v.fee_recipients.take(i as int + 1),
                            c,
                        ));
                    }
                }
            } else {
                proof {
                    assert(msgs.deep_view() =~= recipient_msgs(
                        av,
                        v.fee_recipients.take(i as int + 1),
                        c,
                    ));
                }
            }
            i = i + 1;
        }
        proof {
            assert(v.fee_recipients.take(n as int) =~= v.fee_recipients);
        }
        Ok(msgs)
    }

    /// Takes the fee out of a balance set: returns the transfer
    /// instructions routing the fee to the recipients, and the remainder
    /// left with the holder. The remainder subtraction can never
    /// underflow, since the fee rate is bounded by 1.
    pub fn fee_msgs_from_assets(&self, assets: &AssetList, contract_addr: &Addr) -> (r: Result<
        (Vec<TransferMsg>, AssetList),
        FeeError,
    >)
        requires
            wf(self.deep_view()),
            distinct_infos(assets.deep_view()),
        ensures
            r matches Ok((msgs, rem)) && msgs.deep_view() == recipient_msgs(
                scaled_fees(assets.deep_view(), self.fee_rate),
                self.deep_view().fee_recipients,
                contract_addr@,
            ) && rem.deep_view() == remainder_spec(assets.deep_view(), self.fee_rate),
    {
        let ghost v = self.deep_view();
        let ghost av = assets.deep_view();
        let m = assets.assets.len();
        // Take the fee from the input balances, discarding zero amounts
        let mut fees: Vec<Asset> = Vec::new();
        let mut j: usize = 0;
        while j < m
            invariant
                j <= m,
                m == av.len(),
                av == assets.deep_view(),
                v == self.deep_view(),
                wf(v),
                fees.deep_view() == scaled_fees(av.take(j as int), v.fee_rate),
            decreases m - j,
        {
            proof {
                assert(av[j as int] == assets.assets@[j as int].deep_view());
                lemma_mul_floor_le_amount(assets.assets@[j as int].amount, v.fee_rate);
                lemma_scaled_fees_take_succ(av, v.fee_rate, j as int);
            }
            let a = &assets.assets[j];
            let f = mul_floor(a.amount, self.fee_rate);
            if f != 0 {
                fees.push(Asset { info: a.info.dup(), amount: f });
                proof {
                    assert(fees.deep_view() =~= scaled_fees(av.take(j as int + 1), v.fee_rate));
                }
            }
            j = j + 1;
        }
        proof {
            assert(av.take(m as int) =~= av);
        }
        // The remainder: untouched when no fee is owed, otherwise each
        // entry net of its own fee, zero entries discarded
        let mut after: Vec<Asset> = Vec::new();
        if fees.len() == 0 {
            after = assets.to_vec();
        } else {
            let mut j: usize = 0;
            while j < m
                invariant
                    j <= m,
                    m == av.len(),
                    av == assets.deep_view(),
                    v == self.deep_view(),
                    wf(v),
                    after.deep_view() == net_of_fees(av.take(j as int), v.fee_rate),
                decreases m - j,
            {
                proof {
                    assert(av[j as int] == assets.assets@[j as int].deep_view());
                    lemma_mul_floor_le_amount(assets.assets@[j as int].amount, v.fee_rate);
                    lemma_net_of_fees_take_succ(av, v.fee_rate, j as int);
                }
                let a = &assets.assets[j];
                let f = mul_floor(a.amount, self.fee_rate);
                // The fee rate is bounded by 1, so the fee never exceeds
                // the balance; any underflow would be a defect and must
                // abort rather than clamp
                let net = match a.amount.checked_sub(f) {
                    Some(n) => n,
                    None => {
                        proof {
                            assert(false);
                        }
                        return Err(FeeError::Arithmetic);
                    },
                };
                if net != 0 {
                    after.push(Asset { info: a.info.dup(), amount: net });
                    proof {
                        assert(after.deep_view() =~= net_of_fees(
                            av.take(j as int + 1),
                            v.fee_rate,
                        ));
                    }
                }
                j = j + 1;
            }
            proof {
                assert(av.take(m as int) =~= av);
            }
        }
        let fee_list = AssetList::from_vec(fees);
        let msgs = match self.transfer_assets_msgs(&fee_list, contract_addr) {
            Ok(msgs) => msgs,
            Err(e) => {
                return Err(e);
            },
        };
        proof {
            if v.fee_rate.atomics == 0 {
                lemma_zero_rate_no_fees(av, v.fee_rate);
                lemma_no_fees_no_msgs(v.fee_recipients, contract_addr@);
            }
        }
        Ok((msgs, AssetList::from_vec(after)))
    }

    /// Takes the fee out of a single balance. The entry must survive into
    /// the remainder, so an input whose whole amount would be consumed by
    /// the fee is outside this function's domain.
    pub fn fee_msgs_from_asset(&self, asset: Asset, contract_addr: &Addr) -> (r: Result<
        (Vec<TransferMsg>, Asset),
        FeeError,
    >)
        requires
            wf(self.deep_view()),
            mul_floor_spec(asset.deep_view().amount, self.fee_rate) == 0 || mul_floor_spec(
                asset.deep_view().amount,
                self.fee_rate,
            ) != asset.deep_view().amount,
        ensures
            r matches Ok((msgs, after)) && msgs.deep_view() == recipient_msgs(
                scaled_fees(seq![asset.deep_view()], self.fee_rate),
                self.deep_view().fee_recipients,
                contract_addr@,
            ) && after.deep_view() == (AssetV {
                info: asset.deep_view().info,
                amount: (asset.deep_view().amount - mul_floor_spec(
                    asset.deep_view().amount,
                    self.fee_rate,
                )) as u128,
            }),
    {
        let ghost a0 = asset.deep_view();
        let list = AssetList::from_vec(vec![asset]);
        proof {
            assert(list.deep_view() =~= seq![a0]);
            lemma_mul_floor_le_amount(a0.amount, self.fee_rate);
            let s1 = seq![a0];
            let f = mul_floor_spec(a0.amount, self.fee_rate);
            assert(s1.drop_last() =~= Seq::<AssetV>::empty());
            assert(s1.last() == a0);
            assert(scaled_fees(Seq::<AssetV>::empty(), self.fee_rate) == Seq::<AssetV>::empty());
            assert(net_of_fees(Seq::<AssetV>::empty(), self.fee_rate) == Seq::<AssetV>::empty());
            if f == 0 {
                assert(scaled_fees(s1, self.fee_rate).len() == 0);
                assert(remainder_spec(s1, self.fee_rate) == s1);
            } else {
                assert(scaled_fees(s1, self.fee_rate) == Seq::<AssetV>::empty().push(
                    AssetV { info: a0.info, amount: f as u128 },
                ));
                assert(net_of_fees(s1, self.fee_rate) == Seq::<AssetV>::empty().push(
                    AssetV { info: a0.info, amount: (a0.amount - f) as u128 },
                ));
            }
            assert(remainder_spec(s1, self.fee_rate).len() == 1);
            assert(remainder_spec(s1, self.fee_rate)[0] == (AssetV {
                info: a0.info,
                amount: (a0.amount - f) as u128,
            }));
        }
        let (msgs, rem) = match self.fee_msgs_from_assets(&list, contract_addr) {
            Ok(pair) => pair,
            Err(e) => {
                return Err(e);
            },
        };
        let after = rem.assets[0].dup();
        Ok((msgs, after))
    }
}

} // verus!
