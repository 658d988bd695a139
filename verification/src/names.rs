//! Lists of path components as text, for use as keys.

use crate::path::part_views;
use vstd::prelude::*;

verus! {

/// The text that stands for a list of components: alike for the same list, and for no other. A
/// slash starts a component, and a full stop follows each byte.
pub(crate) closed spec fn id_key(id: Seq<Seq<u8>>) -> Seq<char>
    decreases id.len(), id.last().len(),
{
    if id.len() == 0 {
        Seq::empty()
    } else if id.last().len() == 0 {
        id_key(id.drop_last()).push('/')
    } else {
        id_key(id.drop_last().push(id.last().drop_last())).push(id.last().last() as char).push('.')
    }
}

pub(crate) proof fn lemma_id_key(a: Seq<Seq<u8>>, b: Seq<Seq<u8>>)
    requires
        id_key(a) == id_key(b),
    ensures
        a == b,
    decreases a.len(), a.last().len(),
{
    let k = id_key(a);
    if a.len() == 0 || b.len() == 0 {
        if a.len() > 0 {
            assert(id_key(a).len() > 0);
        }
        if b.len() > 0 {
            assert(id_key(b).len() > 0);
        }
        assert(a =~= b);
    } else if a.last().len() == 0 {
        assert(k.last() == '/');
        assert(b.last().len() == 0);
        assert(id_key(a.drop_last()) =~= k.drop_last());
        assert(id_key(b.drop_last()) =~= k.drop_last());
        lemma_id_key(a.drop_last(), b.drop_last());
        assert(a =~= a.drop_last().push(a.last()));
        assert(b =~= b.drop_last().push(b.last()));
        assert(a.last() =~= b.last());
    } else {
        assert(k.last() == '.');
        assert(b.last().len() > 0);
        let shorter_a = a.drop_last().push(a.last().drop_last());
        let shorter_b = b.drop_last().push(b.last().drop_last());
        assert(id_key(shorter_a) =~= k.drop_last().drop_last());
        assert(id_key(shorter_b) =~= k.drop_last().drop_last());
        assert(k[k.len() - 2] == a.last().last() as char);
        assert(k[k.len() - 2] == b.last().last() as char);
        lemma_id_key(shorter_a, shorter_b);
        assert(shorter_a.drop_last() =~= a.drop_last());
        assert(shorter_b.drop_last() =~= b.drop_last());
        assert(a.last() =~= shorter_a.last().push(a.last().last()));
        assert(b.last() =~= shorter_b.last().push(b.last().last()));
        assert(a =~= a.drop_last().push(a.last()));
        assert(b =~= b.drop_last().push(b.last()));
    }
}

/// The text that stands for a list of components.
pub(crate) fn id_key_text(id: &Vec<Vec<u8>>) -> (res: String)
    ensures
        res@ == id_key(part_views(id@)),
{
    let mut res = String::new();
    let ghost all = part_views(id@);
    let mut i: usize = 0;
    proof {
        assert(all.take(0) =~= Seq::empty());
        assert(res@ =~= id_key(all.take(0)));
    }
    while i < id.len()
        invariant
            i <= id.len(),
            all == part_views(id@),
            res@ == id_key(all.take(i as int)),
        decreases id.len() - i,
    {
        let part = &id[i];
        let ghost before = all.take(i as int);
        res.push('/');
        let mut k: usize = 0;
        proof {
            let grown = before.push(part@.take(0));
            assert(part@.take(0) =~= Seq::empty());
            assert(grown.drop_last() =~= before);
            assert(grown.last().len() == 0);
        }
        while k < part.len()
            invariant
                k <= part.len(),
                res@ == id_key(before.push(part@.take(k as int))),
            decreases part.len() - k,
        {
            res.push(part[k] as char);
            res.push('.');
            proof {
                let longer = before.push(part@.take(k + 1));
                assert(longer.last() =~= part@.take(k + 1));
                assert(longer.last().drop_last() =~= part@.take(k as int));
                assert(longer.drop_last() =~= before);
            }
            k = k + 1;
        }
        proof {
            assert(part@.take(part@.len() as int) =~= part@);
            assert(all.take(i + 1) =~= before.push(part@));
        }
        i = i + 1;
    }
    proof {
        assert(all.take(all.len() as int) =~= all);
    }
    res
}

} // verus!
