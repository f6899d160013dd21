//! Endpoint identifiers: opaque string addresses of bundle nodes.

use vstd::prelude::*;
use vstd::string::*;

verus! {

/// An endpoint identifier (EID), e.g. `dtn://node1`, wrapped for type
/// safety. Equality is by exact string.
#[derive(Debug)]
pub struct EndpointId(String);

impl Clone for EndpointId {
    fn clone(&self) -> (r: Self)
        ensures
            r@ == self@,
    {
        EndpointId(self.0.clone())
    }
}

impl View for EndpointId {
    type V = Seq<char>;

    closed spec fn view(&self) -> Seq<char> {
        self.0@
    }
}

/// The `dtn://` scheme prefix, as a character sequence.
pub open spec fn dtn_scheme_prefix() -> Seq<char> {
    seq!['d', 't', 'n', ':', '/', '/']
}

/// The reserved null endpoint form `dtn:none`, as a character sequence.
pub open spec fn null_eid_chars() -> Seq<char> {
    seq!['d', 't', 'n', ':', 'n', 'o', 'n', 'e']
}

/// Whether an EID string starts with the `dtn://` scheme.
pub open spec fn spec_is_dtn_scheme(s: Seq<char>) -> bool {
    s.len() >= 6 && s.subrange(0, 6) == dtn_scheme_prefix()
}

/// Whether an EID string is the reserved null endpoint (`dtn:none` or empty).
pub open spec fn spec_is_null(s: Seq<char>) -> bool {
    s == null_eid_chars() || s.len() == 0
}

impl EndpointId {
    /// Wrap an owned string as an EID.
    pub fn new(id: String) -> (r: Self)
        ensures
            r@ == id@,
    {
        EndpointId(id)
    }

    /// Wrap a string slice as an EID.
    pub fn from(id: &str) -> (r: Self)
        ensures
            r@ == id@,
    {
        EndpointId(id.to_owned())
    }

    /// The string representation.
    pub fn as_str(&self) -> (r: &str)
        ensures
            r@ == self@,
    {
        self.0.as_str()
    }

    /// The string representation, as an owned copy.
    pub fn display_string(&self) -> (r: String)
        ensures
            r@ == self@,
    {
        self.0.clone()
    }

    /// Whether this EID uses the `dtn://` scheme.
    pub fn is_dtn_scheme(&self) -> (r: bool)
        ensures
            r == spec_is_dtn_scheme(self@),
    {
        let s = self.0.as_str();
        if s.unicode_len() < 6 {
            return false;
        }
        let r = s.get_char(0) == 'd' && s.get_char(1) == 't' && s.get_char(2) == 'n'
            && s.get_char(3) == ':' && s.get_char(4) == '/' && s.get_char(5) == '/';
        proof {
            let sub = self@.subrange(0, 6);
            assert(forall|i: int| 0 <= i < 6 ==> sub[i] == self@[i]);
            if r {
                assert(sub =~= dtn_scheme_prefix());
            } else {
                assert(sub != dtn_scheme_prefix()) by {
                    if sub == dtn_scheme_prefix() {
                        assert(self@[0] == 'd' && self@[1] == 't' && self@[2] == 'n'
                            && self@[3] == ':' && self@[4] == '/' && self@[5] == '/');
                    }
                }
            }
        }
        r
    }

    /// Whether this EID is the reserved null endpoint.
    pub fn is_null(&self) -> (r: bool)
        ensures
            r == spec_is_null(self@),
    {
        let s = self.0.as_str();
        if s.is_empty() {
            return true;
        }
        if s.unicode_len() != 8 {
            proof {
                assert(self@ != null_eid_chars());
            }
            return false;
        }
        let r = s.get_char(0) == 'd' && s.get_char(1) == 't' && s.get_char(2) == 'n'
            && s.get_char(3) == ':' && s.get_char(4) == 'n' && s.get_char(5) == 'o'
            && s.get_char(6) == 'n' && s.get_char(7) == 'e';
        proof {
            if r {
                assert(self@ =~= null_eid_chars());
            } else {
                assert(self@ != null_eid_chars()) by {
                    if self@ == null_eid_chars() {
                        assert(self@[0] == 'd' && self@[1] == 't' && self@[2] == 'n'
                            && self@[3] == ':' && self@[4] == 'n' && self@[5] == 'o'
                            && self@[6] == 'n' && self@[7] == 'e');
                    }
                }
            }
        }
        r
    }
}

impl PartialEq for EndpointId {
    fn eq(&self, other: &Self) -> (r: bool) {
        self.0 == other.0
    }
}

impl vstd::std_specs::cmp::PartialEqSpecImpl for EndpointId {
    open spec fn obeys_eq_spec() -> bool {
        true
    }

    open spec fn eq_spec(&self, other: &Self) -> bool {
        self@ == other@
    }
}

} // verus!
