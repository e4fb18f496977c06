//! Missing-set resolution: keep the records whose checksum the remote
//! inventory reported as not yet known.

use vstd::prelude::*;

use crate::record::MatchRecord;

verus! {

/// Whether one of the strings has exactly these characters.
pub open spec fn holds_string(s: Seq<String>, c: Seq<char>) -> bool {
    exists|i: int| 0 <= i < s.len() && s[i]@ == c
}

fn contains_string(v: &Vec<String>, c: &String) -> (b: bool)
    ensures
        b == holds_string(v@, c@),
{
    let mut k: usize = 0;
    while k < v.len()
        invariant
            k <= v@.len(),
            forall|j: int| 0 <= j < k ==> (#[trigger] v@[j])@ != c@,
        decreases v@.len() - k,
    {
        if v[k] == *c {
            return true;
        }
        k = k + 1;
    }
    false
}

/// The subset of `refs` whose checksum is among `missing`, in input order:
/// what still has to be packaged and uploaded after the remote inventory
/// answered.
pub fn find_missing_files(refs: Vec<MatchRecord>, missing: &Vec<String>) -> (r: Vec<MatchRecord>)
    ensures
        r@ == refs@.filter(|x: MatchRecord| holds_string(missing@, x.checksum@)),
{
    let ghost pred = |x: MatchRecord| holds_string(missing@, x.checksum@);
    let ghost orig = refs@;
    let mut rest = refs;
    let mut r: Vec<MatchRecord> = Vec::new();
    let ghost mut p: int = 0;
    proof {
        assert(orig.take(0).filter(pred) =~= Seq::<MatchRecord>::empty());
        assert(rest@ =~= orig.subrange(0, orig.len() as int));
    }
    while rest.len() > 0
        invariant
            0 <= p <= orig.len(),
            rest@ == orig.subrange(p, orig.len() as int),
            r@ == orig.take(p).filter(pred),
            pred == (|x: MatchRecord| holds_string(missing@, x.checksum@)),
        decreases rest@.len(),
    {
        let x = rest.remove(0);
        proof {
            assert(x == orig[p]);
            assert(orig.take(p + 1) =~= orig.take(p).push(x));
            orig.take(p).lemma_filter_push(x, pred);
        }
        let keep = contains_string(missing, &x.checksum);
        if keep {
            r.push(x);
        }
        proof {
            p = p + 1;
            assert(rest@ =~= orig.subrange(p, orig.len() as int));
        }
    }
    proof {
        assert(orig.take(orig.len() as int) =~= orig);
    }
    r
}

} // verus!
