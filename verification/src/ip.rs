//! Network addresses as the library handles them.

use vstd::prelude::*;
use vstd::std_specs::cmp::PartialEqSpecImpl;

verus! {

/// A network address, held as text. Callers build it from the canonical text
/// in which an IP address displays itself (such as `192.1.2.3`); the library
/// does not check that the text is such an address. Two addresses are the
/// same address exactly when their texts agree, which for canonical texts is
/// when the addresses agree.
#[derive(Debug)]
pub struct IpAddress {
    text: String,
}

impl View for IpAddress {
    type V = Seq<char>;

    closed spec fn view(&self) -> Seq<char> {
        self.text@
    }
}

impl IpAddress {
    /// The address held as `text`; the text is taken as given, and callers
    /// pass an address's canonical text.
    pub fn from_text(text: String) -> (ip: IpAddress)
        ensures
            ip@ == text@,
    {
        IpAddress { text }
    }

    /// The canonical text of the address.
    pub fn as_str(&self) -> (s: &str)
        ensures
            s@ == self@,
    {
        self.text.as_str()
    }
}

impl Clone for IpAddress {
    fn clone(&self) -> (copy: Self)
        ensures
            copy@ == self@,
    {
        IpAddress { text: self.text.clone() }
    }
}

impl PartialEq for IpAddress {
    fn eq(&self, other: &Self) -> (same: bool) {
        self.text == other.text
    }
}

impl PartialEqSpecImpl for IpAddress {
    open spec fn obeys_eq_spec() -> bool {
        true
    }

    open spec fn eq_spec(&self, other: &IpAddress) -> bool {
        self@ == other@
    }
}

impl Eq for IpAddress {}

} // verus!
