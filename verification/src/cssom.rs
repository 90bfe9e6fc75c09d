use vstd::prelude::*;

use crate::text::{spec_before_char, spec_contains_seq};

verus! {

/// The process-wide stylesheet surface: the ordered list of rule texts
/// currently mounted.  Scoped rules are inserted as they are rendered and
/// deleted by the id of the node they are scoped to.
#[derive(Debug, PartialEq)]
pub struct StyleMount {
    pub rules: Vec<String>,
}

impl StyleMount {
    pub fn new() -> (r: Self)
        ensures
            r.rules@ == Seq::<String>::empty(),
    {
        StyleMount { rules: Vec::new() }
    }

    /// Appends one rule's text to the mounted rule list.
    pub fn insert(&mut self, rule: String)
        ensures
            final(self).rules@ == old(self).rules@.push(rule),
    {
        self.rules.push(rule);
    }

    /// Removes every rule whose selector text, the part before the block's
    /// opening brace, mentions `node_id`; rules of other nodes keep their
    /// order.
    #[verifier::loop_isolation(false)]
    pub fn delete(&mut self, node_id: &String)
        ensures
            final(self).rules@ == old(self).rules@.filter(
                |r: String| !spec_contains_seq(spec_before_char(r@, '{'), node_id@),
            ),
    {
        let ghost pred = |r: String| !spec_contains_seq(spec_before_char(r@, '{'), node_id@);
        let mut drained: Vec<String> = Vec::new();
        core::mem::swap(&mut self.rules, &mut drained);
        let ghost orig = drained@;
        let ghost mut done: int = 0;
        proof {
            reveal(Seq::filter);
            assert(orig.subrange(0, 0).filter(pred) =~= Seq::<String>::empty());
        }
        while drained.len() > 0
            invariant
                0 <= done <= orig.len(),
                drained@ == orig.subrange(done, orig.len() as int),
                self.rules@ == orig.subrange(0, done).filter(pred),
            decreases drained@.len(),
        {
            let r = drained.remove(0);
            proof {
                assert(r == orig[done]);
                assert(drained@ =~= orig.subrange(done + 1, orig.len() as int));
            }
            let selector = crate::text::before_char(r.as_str(), '{');
            let keep = !crate::text::contains_str(selector.as_str(), node_id.as_str());
            if keep {
                self.rules.push(r);
            }
            proof {
                reveal(Seq::filter);
                let s1 = orig.subrange(0, done + 1);
                assert(s1.drop_last() =~= orig.subrange(0, done));
                assert(s1.last() == orig[done]);
                assert(keep == pred(orig[done]));
                assert(self.rules@ == s1.filter(pred));
                done = done + 1;
            }
        }
        proof {
            assert(orig.subrange(0, orig.len() as int) =~= orig);
        }
    }
}

} // verus!
