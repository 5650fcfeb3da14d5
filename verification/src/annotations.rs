//! Annotations attached to declarations, and the check of their
//! arguments against the markers a declaration allows.

use vstd::prelude::*;
use vstd::string::StringExecFns;

use crate::types::string_eq;

verus! {

/// An annotation: a name and a list of `key = value` arguments. Keys
/// that are decimal numerals stand for positional arguments.
pub struct Annotation {
    pub name: String,
    pub args: Vec<(String, String)>,
}

/// Whether every argument key is one of the allowed positional markers
/// or one of the allowed named markers.
pub open spec fn spec_args_allowed(
    keys: Seq<Seq<char>>,
    positional: Seq<Seq<char>>,
    named: Seq<Seq<char>>,
) -> bool {
    forall|i: int|
        0 <= i < keys.len() ==> positional.contains(#[trigger] keys[i]) || named.contains(keys[i])
}

impl Annotation {
    /// The argument keys, as sequences of characters.
    pub open spec fn spec_keys(&self) -> Seq<Seq<char>> {
        Seq::new(self.args@.len(), |i: int| self.args@[i].0@)
    }

    /// Check that every argument key is among the allowed positional or
    /// named markers; the first stray key is the error.
    pub fn check_args(&self, positional: &Vec<String>, named: &Vec<String>) -> (r: Result<
        (),
        String,
    >)
        ensures
            r is Ok <==> spec_args_allowed(
                self.spec_keys(),
                Seq::new(positional@.len(), |i: int| positional@[i]@),
                Seq::new(named@.len(), |i: int| named@[i]@),
            ),
    {
        let ghost pos_keys = Seq::new(positional@.len(), |i: int| positional@[i]@);
        let ghost named_keys = Seq::new(named@.len(), |i: int| named@[i]@);
        let mut i: usize = 0;
        while i < self.args.len()
            invariant
                i <= self.args@.len(),
                pos_keys == Seq::new(positional@.len(), |k: int| positional@[k]@),
                named_keys == Seq::new(named@.len(), |k: int| named@[k]@),
                forall|k: int|
                    0 <= k < i ==> pos_keys.contains(#[trigger] self.spec_keys()[k])
                        || named_keys.contains(self.spec_keys()[k]),
            decreases self.args@.len() - i,
        {
            let key = &self.args[i].0;
            let mut found = false;
            let mut j: usize = 0;
            while j < positional.len()
                invariant
                    j <= positional@.len(),
                    pos_keys == Seq::new(positional@.len(), |k: int| positional@[k]@),
                    found <==> exists|k: int| 0 <= k < j && #[trigger] pos_keys[k] == key@,
                decreases positional@.len() - j,
            {
                if !found && string_eq(key, &positional[j]) {
                    found = true;
                    proof {
                        assert(pos_keys[j as int] == key@);
                    }
                }
                j = j + 1;
            }
            let mut j2: usize = 0;
            while j2 < named.len()
                invariant
                    j2 <= named@.len(),
                    named_keys == Seq::new(named@.len(), |k: int| named@[k]@),
                    pos_keys == Seq::new(positional@.len(), |k: int| positional@[k]@),
                    found <==> (exists|k: int| 0 <= k < pos_keys.len() && #[trigger] pos_keys[k] == key@)
                        || (exists|k: int| 0 <= k < j2 && #[trigger] named_keys[k] == key@),
                decreases named@.len() - j2,
            {
                if !found && string_eq(key, &named[j2]) {
                    found = true;
                    proof {
                        assert(named_keys[j2 as int] == key@);
                    }
                }
                j2 = j2 + 1;
            }
            if !found {
                proof {
                    assert(self.spec_keys()[i as int] == key@);
                    assert(!pos_keys.contains(self.spec_keys()[i as int]));
                    assert(!named_keys.contains(self.spec_keys()[i as int]));
                }
                let mut msg = String::new();
                msg.append("Annotation argument ");
                msg.append(key.as_str());
                msg.append(" is not allowed here");
                return Err(msg);
            }
            proof {
                assert(self.spec_keys()[i as int] == key@);
                if exists|k: int| 0 <= k < pos_keys.len() && #[trigger] pos_keys[k] == key@ {
                    assert(pos_keys.contains(self.spec_keys()[i as int]));
                } else {
                    assert(named_keys.contains(self.spec_keys()[i as int]));
                }
            }
            i = i + 1;
        }
        Ok(())
    }
}

} // verus!
