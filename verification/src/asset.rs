use crate::addr::Addr;
use vstd::prelude::*;

verus! {

/// What kind of fungible asset an amount is denominated in: a native coin
/// named by its denomination, or a token ledger named by its address.
#[derive(Clone, Debug, PartialEq, Eq)]
pub enum AssetInfo {
    Native(String),
    Cw20(Addr),
}

/// Mathematical image of an `AssetInfo`.
pub enum AssetInfoV {
    Native(Seq<char>),
    Cw20(Seq<char>),
}

impl DeepView for AssetInfo {
    type V = AssetInfoV;

    open spec fn deep_view(&self) -> AssetInfoV {
        match self {
            AssetInfo::Native(denom) => AssetInfoV::Native(denom@),
            AssetInfo::Cw20(addr) => AssetInfoV::Cw20(addr@),
        }
    }
}

impl AssetInfo {
    /// A native coin denomination.
    pub fn native(denom: String) -> (r: AssetInfo)
        ensures
            r.deep_view() == AssetInfoV::Native(denom@),
    {
        AssetInfo::Native(denom)
    }

    /// A fresh copy.
    pub fn dup(&self) -> (r: AssetInfo)
        ensures
            r.deep_view() == self.deep_view(),
    {
        match self {
            AssetInfo::Native(denom) => AssetInfo::Native(denom.clone()),
            AssetInfo::Cw20(addr) => AssetInfo::Cw20(addr.dup()),
        }
    }

    /// Whether two infos name the same asset.
    pub fn same_as(&self, other: &AssetInfo) -> (r: bool)
        ensures
            r == (self.deep_view() == other.deep_view()),
    {
        match (self, other) {
            (AssetInfo::Native(a), AssetInfo::Native(b)) => *a == *b,
            (AssetInfo::Cw20(a), AssetInfo::Cw20(b)) => a.same_as(b),
            _ => false,
        }
    }
}

/// An amount of one asset.
#[derive(Clone, Debug, PartialEq, Eq)]
pub struct Asset {
    pub info: AssetInfo,
    pub amount: u128,
}

/// Mathematical image of an `Asset`.
pub struct AssetV {
    pub info: AssetInfoV,
    pub amount: u128,
}

impl DeepView for Asset {
    type V = AssetV;

    open spec fn deep_view(&self) -> AssetV {
        AssetV { info: self.info.deep_view(), amount: self.amount }
    }
}

impl Asset {
    pub fn new(info: AssetInfo, amount: u128) -> (r: Asset)
        ensures
            r.deep_view() == (AssetV { info: info.deep_view(), amount }),
    {
        Asset { info, amount }
    }

    /// A native coin amount.
    pub fn native(denom: String, amount: u128) -> (r: Asset)
        ensures
            r.deep_view() == (AssetV { info: AssetInfoV::Native(denom@), amount }),
    {
        Asset { info: AssetInfo::Native(denom), amount }
    }

    /// A fresh copy.
    pub fn dup(&self) -> (r: Asset)
        ensures
            r.deep_view() == self.deep_view(),
    {
        Asset { info: self.info.dup(), amount: self.amount }
    }
}

/// An ordered collection of asset amounts. The fee engine expects at most
/// one entry per asset (see `distinct_infos`), as a balance set is keyed
/// by denomination.
#[derive(Clone, Debug, PartialEq, Eq)]
pub struct AssetList {
    pub assets: Vec<Asset>,
}

impl DeepView for AssetList {
    type V = Seq<AssetV>;

    open spec fn deep_view(&self) -> Seq<AssetV> {
        self.assets.deep_view()
    }
}

/// No two entries name the same asset.
pub open spec fn distinct_infos(s: Seq<AssetV>) -> bool {
    forall|i: int, j: int| 0 <= i < j < s.len() ==> s[i].info != s[j].info
}

impl AssetList {
    /// An empty list.
    pub fn new() -> (r: AssetList)
        ensures
            r.deep_view() == Seq::<AssetV>::empty(),
    {
        AssetList { assets: Vec::new() }
    }

    pub fn from_vec(assets: Vec<Asset>) -> (r: AssetList)
        ensures
            r.deep_view() == assets.deep_view(),
    {
        AssetList { assets }
    }

    /// A copy of the underlying entries.
    pub fn to_vec(&self) -> (r: Vec<Asset>)
        ensures
            r.deep_view() == self.deep_view(),
    {
        let mut out: Vec<Asset> = Vec::new();
        let mut i: usize = 0;
        while i < self.assets.len()
            invariant
                i <= self.assets.len(),
                out@.len() == i,
                forall|k: int| 0 <= k < i ==> out@[k].deep_view() == self.deep_view()[k],
            decreases self.assets.len() - i,
        {
            let a = self.assets[i].dup();
            proof {
                assert(a.deep_view() == self.deep_view()[i as int]);
            }
            out.push(a);
            i = i + 1;
        }
        proof {
            assert(out.deep_view() =~= self.deep_view());
        }
        out
    }

    pub fn len(&self) -> (r: usize)
        ensures
            r == self.deep_view().len(),
    {
        self.assets.len()
    }

    pub fn is_empty(&self) -> (r: bool)
        ensures
            r == (self.deep_view().len() == 0),
    {
        self.assets.len() == 0
    }
}

} // verus!
