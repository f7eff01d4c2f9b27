use vstd::prelude::*;

verus! {

/// A ledger address whose raw text has been accepted by an address
/// validation capability. Outside of tests, values should come out of a
/// validator rather than `unchecked`.
#[derive(Clone, Debug, PartialEq, Eq)]
pub struct Addr(pub String);

impl View for Addr {
    type V = Seq<char>;

    open spec fn view(&self) -> Seq<char> {
        self.0@
    }
}

impl DeepView for Addr {
    type V = Seq<char>;

    open spec fn deep_view(&self) -> Seq<char> {
        self.0@
    }
}

impl Addr {
    /// Wraps a raw string without validating it.
    pub fn unchecked(s: String) -> (r: Addr)
        ensures
            r@ == s@,
    {
        Addr(s)
    }

    pub fn as_str(&self) -> (r: &str)
        ensures
            r@ == self@,
    {
        self.0.as_str()
    }

    pub fn into_string(self) -> (r: String)
        ensures
            r@ == self@,
    {
        self.0
    }

    /// A fresh copy of the address.
    pub fn dup(&self) -> (r: Addr)
        ensures
            r@ == self@,
    {
        Addr(self.0.clone())
    }

    /// Whether two addresses carry the same text.
    pub fn same_as(&self, other: &Addr) -> (r: bool)
        ensures
            r == (self@ == other@),
    {
        self.0 == other.0
    }
}

/// Address validation capability, supplied by the host environment.
///
/// A validator either accepts a raw string, handing back an address with
/// exactly that text, or rejects it with a reason. Which strings are
/// accepted is the validator's own policy, described by `accepts`.
pub trait AddressValidator {
    /// The set of raw strings this validator accepts.
    spec fn accepts(&self, raw: Seq<char>) -> bool;

    fn validate_address(&self, raw: &String) -> (r: Result<Addr, String>)
        ensures
            r.is_ok() == self.accepts(raw@),
            r matches Ok(a) ==> a@ == raw@,
    ;
}

/// Whether `c` may appear in an address under the basic policy:
/// lowercase ASCII letters and digits.
pub open spec fn basic_addr_char(c: char) -> bool {
    ('a' as u32 <= c as u32 && c as u32 <= 'z' as u32) || ('0' as u32 <= c as u32 && c as u32
        <= '9' as u32)
}

/// The strings the basic validator accepts: between 1 and 90 characters,
/// all lowercase ASCII letters or digits.
pub open spec fn basic_accepts(raw: Seq<char>) -> bool {
    1 <= raw.len() <= 90 && (forall|i: int| 0 <= i < raw.len() ==> basic_addr_char(raw[i]))
}

/// A self-contained validator with a purely structural policy, usable
/// where no host address service is injected.
pub struct BasicValidator;

impl AddressValidator for BasicValidator {
    open spec fn accepts(&self, raw: Seq<char>) -> bool {
        basic_accepts(raw)
    }

    fn validate_address(&self, raw: &String) -> (r: Result<Addr, String>) {
        let n = raw.as_str().unicode_len();
        if n == 0 || n > 90 {
            return Err(String::from_str("address length out of range"));
        }
        let mut i: usize = 0;
        while i < n
            invariant
                i <= n,
                n == raw@.len(),
                forall|j: int| 0 <= j < i ==> basic_addr_char(raw@[j]),
            decreases n - i,
        {
            let c = raw.as_str().get_char(i);
            let u = c as u32;
            if !(('a' as u32 <= u && u <= 'z' as u32) || ('0' as u32 <= u && u <= '9' as u32)) {
                return Err(String::from_str("address holds an unexpected character"));
            }
            i = i + 1;
        }
        Ok(Addr(raw.clone()))
    }
}

} // verus!
