//! References between the schemas of the upstream service's API description.
use vstd::prelude::*;
use vstd::string::StrSliceExecFns;

verus! {

/// Where the schemas of the API description live.
pub const SCHEMA_PREFIX: &'static str = "#/components/schemas/";

/// The rest of `s` after `prefix`, if `s` starts with it.
pub open spec fn strip_prefix(s: Seq<char>, prefix: Seq<char>) -> Option<Seq<char>> {
    if prefix.len() <= s.len() && s.subrange(0, prefix.len() as int) == prefix {
        Some(s.subrange(prefix.len() as int, s.len() as int))
    } else {
        None
    }
}

/// The value that a variant of a generated enum wraps.
#[derive(Debug, Clone, PartialEq, Eq)]
pub enum EnumVariantTupleValue {
    /// A reference to a schema, such as `#/components/schemas/User`.
    Ref(String),
}

impl EnumVariantTupleValue {
    /// The name of the referenced schema, if the reference points among the
    /// schemas.
    pub fn name(&self) -> (r: Option<&str>)
        ensures
            match strip_prefix(self->Ref_0@, SCHEMA_PREFIX@) {
                None => r is None,
                Some(rest) => r matches Some(n) && n@ == rest,
            },
    {
        let EnumVariantTupleValue::Ref(path) = self;
        let p: &str = path.as_str();
        let len = p.unicode_len();
        let plen = SCHEMA_PREFIX.unicode_len();
        if plen > len {
            return None;
        }
        let mut i: usize = 0;
        while i < plen
            invariant
                plen == SCHEMA_PREFIX@.len(),
                len == p@.len(),
                p@ == self->Ref_0@,
                plen <= len,
                i <= plen,
                forall|j: int| 0 <= j < i ==> p@[j] == SCHEMA_PREFIX@[j],
            decreases plen - i,
        {
            if p.get_char(i) != SCHEMA_PREFIX.get_char(i) {
                assert(p@.subrange(0, plen as int)[i as int] != SCHEMA_PREFIX@[i as int]);
                return None;
            }
            i = i + 1;
        }
        assert(p@.subrange(0, plen as int) =~= SCHEMA_PREFIX@);
        Some(p.substring_char(plen, len))
    }
}

} // verus!
