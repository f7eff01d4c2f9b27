use crate::addr::{Addr, AddressValidator};
use crate::decimal::Decimal;
use crate::fee_config::{all_accepted, valid, FeeConfig, FeeConfigV};
use vstd::prelude::*;

verus! {

/// An audit record emitted after a successful configuration update.
#[derive(Clone, Debug, PartialEq, Eq)]
pub struct Event {
    pub name: String,
    pub attributes: Vec<(String, String)>,
}

/// Why a configuration update was refused.
#[derive(Clone, Debug, PartialEq, Eq)]
pub enum ConfigError {
    /// A storage failure, passed through unchanged: the slot was empty
    /// or the value could not be persisted.
    StdError(String),
    /// The updated draft failed validation; nothing was persisted.
    InvalidConfig { reason: String },
    /// The access check refused the sender.
    Unauthorized,
}

/// Access-control capability: decides whether a sender may update the
/// configuration. `allows` describes its policy.
pub trait AccessCheck {
    spec fn allows(&self, sender: Seq<char>) -> bool;

    fn check_access(&self, sender: &Addr) -> (r: Result<(), String>)
        ensures
            r.is_ok() == self.allows(sender@),
    ;
}

/// An access check that admits every sender.
pub struct AlwaysAllowed;

impl AccessCheck for AlwaysAllowed {
    open spec fn allows(&self, sender: Seq<char>) -> bool {
        true
    }

    fn check_access(&self, sender: &Addr) -> (r: Result<(), String>) {
        Ok(())
    }
}

/// An access check that admits exactly one owner address.
pub struct FixedOwner {
    pub owner: Addr,
}

impl AccessCheck for FixedOwner {
    open spec fn allows(&self, sender: Seq<char>) -> bool {
        sender == self.owner@
    }

    fn check_access(&self, sender: &Addr) -> (r: Result<(), String>) {
        if sender.same_as(&self.owner) {
            Ok(())
        } else {
            Err(String::from_str("caller is not the owner"))
        }
    }
}

/// An access check that carries a verdict reached elsewhere, for hosts
/// whose own authorization runs before the engine is entered.
pub struct FixedVerdict {
    pub allowed: bool,
}

impl AccessCheck for FixedVerdict {
    open spec fn allows(&self, sender: Seq<char>) -> bool {
        self.allowed
    }

    fn check_access(&self, sender: &Addr) -> (r: Result<(), String>) {
        if self.allowed {
            Ok(())
        } else {
            Err(String::from_str("caller is not allowed to update the config"))
        }
    }
}

/// Single-slot persistence capability for one configuration value.
/// `stored` is the value the slot currently holds, if any.
pub trait ConfigStore<T: DeepView> {
    spec fn stored(&self) -> Option<T::V>;

    /// Loading fails exactly when the slot is empty.
    fn load(&self) -> (r: Result<T, String>)
        ensures
            match r {
                Ok(c) => self.stored() == Some(c.deep_view()),
                Err(_) => self.stored() is None,
            },
    ;

    /// Saving replaces the whole slot atomically, or leaves it untouched
    /// on failure.
    fn save(&mut self, value: &T) -> (r: Result<(), String>)
        ensures
            match r {
                Ok(_) => final(self).stored() == Some(value.deep_view()),
                Err(_) => final(self).stored() == old(self).stored(),
            },
    ;
}

/// A sparse update set: one optional slot per configuration field, an
/// unset slot meaning "leave unchanged". `applied` is the merge it
/// performs on a draft.
pub trait Applyable<U: DeepView> {
    spec fn applied(&self, target: U::V) -> U::V;

    /// The text of the update set's human-readable account.
    spec fn description(&self) -> Seq<char>;

    fn apply_to(&self, target: &mut U)
        ensures
            final(target).deep_view() == self.applied(old(target).deep_view()),
    ;

    /// A human-readable account of the update set, for the audit record.
    fn describe(&self) -> (r: String)
        ensures
            r@ == self.description(),
    ;
}

/// A draft that can be validated into a configuration. `validate_view`
/// says, per draft image, whether validation succeeds and what it yields.
pub trait Validateable<T: DeepView, V: AddressValidator>: DeepView + Sized {
    spec fn validate_view(d: Self::V, api: &V) -> Option<T::V>;

    fn validate(&self, api: &V) -> (r: Result<T, String>)
        ensures
            match r {
                Ok(c) => Self::validate_view(self.deep_view(), api) == Some(c.deep_view()),
                Err(_) => Self::validate_view(self.deep_view(), api) is None,
            },
    ;
}

/// A configuration that can be turned back into its raw, unvalidated
/// draft form; the conversion is lossless and always succeeds.
pub trait ToUnchecked<U: DeepView>: DeepView {
    spec fn unchecked_view(v: Self::V) -> U::V;

    fn to_unchecked(&self) -> (r: U)
        ensures
            r.deep_view() == Self::unchecked_view(self.deep_view()),
    ;
}

/// Whether the optional access check admits the sender; no check at all
/// admits everyone.
pub open spec fn access_allowed<A: AccessCheck>(access: Option<&A>, sender: Seq<char>) -> bool {
    match access {
        Some(a) => a.allows(sender),
        None => true,
    }
}

/// Updates a persisted configuration with new values.
///
/// The pipeline is authorize, load, convert to a draft, apply the sparse
/// updates, re-validate, persist, report: either every step succeeds and
/// the slot holds exactly the returned configuration, or an error comes
/// back and the slot is untouched. The audit event carries the fixed
/// name and a description of the applied updates.
pub fn update_config<T, U, UP, S, A, V>(
    store: &mut S,
    api: &V,
    sender: &Addr,
    updates: UP,
    access_allowed_by: Option<&A>,
) -> (r: Result<(T, Event), ConfigError>) where
    T: DeepView + ToUnchecked<U>,
    U: DeepView + Validateable<T, V>,
    UP: Applyable<U>,
    S: ConfigStore<T>,
    A: AccessCheck,
    V: AddressValidator,

    ensures
        ({
            let allowed = access_allowed(access_allowed_by, sender@);
            let before = old(store).stored();
            match r {
                Ok((cfg, ev)) => {
                    &&& allowed
                    &&& before is Some
                    &&& U::validate_view(
                        updates.applied(T::unchecked_view(before->Some_0)),
                        api,
                    ) == Some(cfg.deep_view())
                    &&& final(store).stored() == Some(cfg.deep_view())
                    &&& ev.name@ == "update-config"@
                    &&& ev.attributes@.len() == 1
                    &&& ev.attributes@[0].0@ == "updates"@
                    &&& ev.attributes@[0].1@ == updates.description()
                },
                Err(e) => {
                    &&& final(store).stored() == before
                    &&& match e {
                        ConfigError::Unauthorized => !allowed,
                        ConfigError::StdError(_) => allowed && (before is None
                            || U::validate_view(
                            updates.applied(T::unchecked_view(before->Some_0)),
                            api,
                        ) is Some),
                        ConfigError::InvalidConfig { .. } => allowed && before is Some
                            && U::validate_view(
                            updates.applied(T::unchecked_view(before->Some_0)),
                            api,
                        ) is None,
                    }
                },
            }
        }),
{
    // Authorization comes first: nothing is read or written for a
    // refused sender
    if let Some(check) = access_allowed_by {
        match check.check_access(sender) {
            Ok(_) => {},
            Err(_) => {
                return Err(ConfigError::Unauthorized);
            },
        }
    }
    let mut attributes: Vec<(String, String)> = Vec::new();
    attributes.push((String::from_str("updates"), updates.describe()));
    let event = Event { name: String::from_str("update-config"), attributes };
    // Load the old configuration, turn it into the unvalidated draft,
    // apply the updates, validate and persist the result
    let config = match store.load() {
        Ok(c) => c,
        Err(e) => {
            return Err(ConfigError::StdError(e));
        },
    };
    let mut draft: U = config.to_unchecked();
    updates.apply_to(&mut draft);
    let new_config = match draft.validate(api) {
        Ok(c) => c,
        Err(reason) => {
            return Err(ConfigError::InvalidConfig { reason });
        },
    };
    match store.save(&new_config) {
        Ok(_) => {},
        Err(e) => {
            return Err(ConfigError::StdError(e));
        },
    }
    Ok((new_config, event))
}

/// A fresh copy of a raw recipient list.
fn dup_string_recipients(rs: &Vec<(String, Decimal)>) -> (r: Vec<(String, Decimal)>)
    ensures
        r.deep_view() == rs.deep_view(),
{
    let mut out: Vec<(String, Decimal)> = Vec::new();
    let mut i: usize = 0;
    while i < rs.len()
        invariant
            i <= rs@.len(),
            out@.len() == i,
            forall|k: int| 0 <= k < i ==> #[trigger] out@[k].deep_view() == rs.deep_view()[k],
        decreases rs@.len() - i,
    {
        proof {
            assert(rs.deep_view()[i as int] == rs@[i as int].deep_view());
        }
        let pair = &rs[i];
        out.push((pair.0.clone(), pair.1));
        i = i + 1;
    }
    proof {
        assert(out.deep_view() =~= rs.deep_view());
    }
    out
}

/// A sparse update set for a fee configuration: one optional slot per
/// field.
#[derive(Clone, Debug, PartialEq, Eq)]
pub struct FeeConfigUpdates {
    pub fee_rate: Option<Decimal>,
    pub fee_recipients: Option<Vec<(String, Decimal)>>,
}

impl Applyable<FeeConfig<String>> for FeeConfigUpdates {
    open spec fn applied(&self, target: FeeConfigV) -> FeeConfigV {
        FeeConfigV {
            fee_rate: match self.fee_rate {
                Some(r) => r,
                None => target.fee_rate,
            },
            fee_recipients: match self.fee_recipients {
                Some(rs) => rs.deep_view(),
                None => target.fee_recipients,
            },
        }
    }

    fn apply_to(&self, target: &mut FeeConfig<String>) {
        match &self.fee_rate {
            Some(r) => {
                target.fee_rate = *r;
            },
            None => {},
        }
        match &self.fee_recipients {
            Some(rs) => {
                target.fee_recipients = dup_string_recipients(rs);
            },
            None => {},
        }
    }

    open spec fn description(&self) -> Seq<char> {
        "updates:"@ + (if self.fee_rate is Some {
            " fee_rate"@
        } else {
            Seq::<char>::empty()
        }) + (if self.fee_recipients is Some {
            " fee_recipients"@
        } else {
            Seq::<char>::empty()
        })
    }

    fn describe(&self) -> (r: String) {
        let mut s = String::from_str("updates:");
        if self.fee_rate.is_some() {
            s.append(" fee_rate");
        }
        if self.fee_recipients.is_some() {
            s.append(" fee_recipients");
        }
        proof {
            assert(s@ =~= self.description());
        }
        s
    }
}

impl<V: AddressValidator> Validateable<FeeConfig<Addr>, V> for FeeConfig<String> {
    open spec fn validate_view(d: FeeConfigV, api: &V) -> Option<FeeConfigV> {
        if valid(d) && all_accepted(api, d.fee_recipients) {
            Some(d)
        } else {
            None
        }
    }

    fn validate(&self, api: &V) -> (r: Result<FeeConfig<Addr>, String>) {
        match self.check(api) {
            Ok(c) => Ok(c),
            Err(e) => Err(e.message()),
        }
    }
}

impl ToUnchecked<FeeConfig<String>> for FeeConfig<Addr> {
    open spec fn unchecked_view(v: FeeConfigV) -> FeeConfigV {
        v
    }

    fn to_unchecked(&self) -> (r: FeeConfig<String>) {
        FeeConfig::from(self.dup())
    }
}

/// An in-memory configuration slot for a fee configuration.
pub struct FeeConfigStore {
    pub value: Option<FeeConfig<Addr>>,
}

impl ConfigStore<FeeConfig<Addr>> for FeeConfigStore {
    open spec fn stored(&self) -> Option<FeeConfigV> {
        match self.value {
            Some(c) => Some(c.deep_view()),
            None => None,
        }
    }

    fn load(&self) -> (r: Result<FeeConfig<Addr>, String>) {
        match &self.value {
            Some(c) => Ok(c.dup()),
            None => Err(String::from_str("config not found")),
        }
    }

    fn save(&mut self, value: &FeeConfig<Addr>) -> (r: Result<(), String>) {
        self.value = Some(value.dup());
        Ok(())
    }
}

/// An update set with every slot unset merges any draft to itself:
/// together with the round trip below, applying it through the update
/// pipeline can only re-produce the stored configuration.
pub proof fn lemma_unset_updates_change_nothing(u: FeeConfigUpdates, t: FeeConfigV)
    requires
        u.fee_rate is None,
        u.fee_recipients is None,
    ensures
        u.applied(t) == t,
{
}

/// Round trip: a configuration that passes every validation rule, whose
/// addresses the validator accepts, converted to its raw form and
/// validated again, reproduces exactly itself.
pub proof fn lemma_check_round_trip<V: AddressValidator>(cfg: FeeConfigV, api: &V)
    requires
        valid(cfg),
        all_accepted(api, cfg.fee_recipients),
    ensures
        <FeeConfig<String> as Validateable<FeeConfig<Addr>, V>>::validate_view(
            <FeeConfig<Addr> as ToUnchecked<FeeConfig<String>>>::unchecked_view(cfg),
            api,
        ) == Some(cfg),
{
}

/// An empty update set on a fee configuration leaves the persisted
/// value identical: the unchanged draft of a configuration that passes
/// validation can only validate back to that same configuration, so a
/// successful update stores exactly what was already there.
pub proof fn lemma_empty_update_preserves_fee_config<V: AddressValidator>(
    cv: FeeConfigV,
    u: FeeConfigUpdates,
    api: &V,
)
    requires
        u.fee_rate is None,
        u.fee_recipients is None,
        valid(cv),
        all_accepted(api, cv.fee_recipients),
    ensures
        <FeeConfig<String> as Validateable<FeeConfig<Addr>, V>>::validate_view(
            u.applied(<FeeConfig<Addr> as ToUnchecked<FeeConfig<String>>>::unchecked_view(cv)),
            api,
        ) == Some(cv),
{
    lemma_unset_updates_change_nothing(u, cv);
    lemma_check_round_trip(cv, api);
}

/// An update set whose merge changes nothing, fed to a schema whose
/// draft round-trips through validation, can only re-produce the stored
/// configuration: an empty update leaves the persisted value identical.
pub proof fn lemma_empty_update_is_identity<T, U, UP, V>(cv: T::V, updates: UP, api: &V) where
    T: DeepView + ToUnchecked<U>,
    U: DeepView + Validateable<T, V>,
    UP: Applyable<U>,
    V: AddressValidator,

    requires
        updates.applied(T::unchecked_view(cv)) == T::unchecked_view(cv),
        U::validate_view(T::unchecked_view(cv), api) == Some(cv),
    ensures
        U::validate_view(updates.applied(T::unchecked_view(cv)), api) == Some(cv),
{
}

} // verus!
