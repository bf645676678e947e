//! Chain identifiers of the form `namespace:reference`.

use vstd::prelude::*;
use vstd::string::StrSliceExecFns;

verus! {

/// The text is no chain identifier.
#[derive(Copy, Clone, Debug, PartialEq, Eq)]
pub struct BadChainId;

/// `true` for the letters of the Latin alphabet and the decimal digits.
pub open spec fn is_alphanumeric(c: char) -> bool {
    ('0' <= c && c <= '9') || ('a' <= c && c <= 'z') || ('A' <= c && c <= 'Z')
}

/// `true` when `s` is a namespace of `k` characters, a colon, and a
/// reference: three to eight letters or digits, then one to thirty-two.
pub open spec fn splits_at(s: Seq<char>, k: int) -> bool {
    &&& 3 <= k <= 8
    &&& k < s.len()
    &&& s[k] == ':'
    &&& 1 <= s.len() - k - 1 <= 32
    &&& forall|j: int| 0 <= j < s.len() && j != k ==> is_alphanumeric(#[trigger] s[j])
}

/// `true` when `s` is a chain identifier.
pub open spec fn is_chain_id(s: Seq<char>) -> bool {
    exists|k: int| splits_at(s, k)
}

/// A chain identifier: a namespace and a reference with a colon between.
#[derive(Clone, Debug, PartialEq, Eq, Hash)]
pub struct Caip2ChainId {
    chain_id: String,
    separator: usize,
}

impl View for Caip2ChainId {
    type V = Seq<char>;

    closed spec fn view(&self) -> Seq<char> {
        self.chain_id@
    }
}

fn alphanumeric(c: char) -> (r: bool)
    ensures
        r == is_alphanumeric(c),
{
    ('0' <= c && c <= '9') || ('a' <= c && c <= 'z') || ('A' <= c && c <= 'Z')
}

impl Caip2ChainId {
    /// The validity of an identifier: its text is a chain identifier, split at
    /// the recorded place.
    pub closed spec fn wf(&self) -> bool {
        splits_at(self.chain_id@, self.separator as int)
    }

    /// Reads a chain identifier; any other text is refused.
    pub fn parse(s: &str) -> (r: Result<Caip2ChainId, BadChainId>)
        ensures
            r is Ok <==> is_chain_id(s@),
            r is Ok ==> r.unwrap()@ == s@ && r.unwrap().wf(),
    {
        let len = s.unicode_len();
        if len < 5 || len > 41 {
            assert(forall|k: int| !splits_at(s@, k));
            return Err(BadChainId);
        }
        let mut separator: usize = len;
        let mut i: usize = 0;
        while i < len
            invariant
                i <= len,
                len == s@.len(),
                5 <= len <= 41,
                separator <= len,
                separator < len ==> separator < i && s@[separator as int] == ':',
                forall|j: int| 0 <= j < i && j != separator ==> is_alphanumeric(#[trigger] s@[j]),
            decreases len - i,
        {
            let c = s.get_char(i);
            if c == ':' && separator == len {
                separator = i;
            } else if !alphanumeric(c) {
                assert(forall|k: int| !splits_at(s@, k)) by {
                    assert forall|k: int| !splits_at(s@, k) by {
                        if splits_at(s@, k) {
                            if k == i {
                                assert(is_alphanumeric(s@[separator as int]));
                            } else {
                                assert(is_alphanumeric(s@[i as int]));
                            }
                        }
                    }
                }
                return Err(BadChainId);
            }
            i += 1;
        }
        if separator < 3 || separator > 8 || separator >= len || len - separator - 1 > 32 || len
            - separator - 1 < 1 {
            assert forall|k: int| !splits_at(s@, k) by {
                if splits_at(s@, k) {
                    if separator < len && k != separator {
                        assert(is_alphanumeric(s@[separator as int]));
                    } else if separator == len {
                        assert(is_alphanumeric(s@[k]));
                    }
                }
            }
            return Err(BadChainId);
        }
        assert(splits_at(s@, separator as int));
        Ok(Caip2ChainId { chain_id: s.to_owned(), separator })
    }

    /// The identifier as text.
    pub fn as_str(&self) -> (s: &str)
        ensures
            s@ == self@,
    {
        self.chain_id.as_str()
    }
}

} // verus!
