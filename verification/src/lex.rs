//! Lexicographic order on character sequences, with the facts the sorted
//! containers of this crate rest on.

use vstd::prelude::*;

verus! {

/// `a` is at or before `b` in lexicographic order of code points.
pub open spec fn lex_le(a: Seq<char>, b: Seq<char>) -> bool
    decreases a.len(),
{
    if a.len() == 0 {
        true
    } else if b.len() == 0 {
        false
    } else if (a[0] as int) < (b[0] as int) {
        true
    } else if (a[0] as int) > (b[0] as int) {
        false
    } else {
        lex_le(a.drop_first(), b.drop_first())
    }
}

/// The order is total: one of the two directions always holds.
pub proof fn lemma_lex_le_total(a: Seq<char>, b: Seq<char>)
    ensures
        lex_le(a, b) || lex_le(b, a),
    decreases a.len(),
{
    if a.len() > 0 && b.len() > 0 && a[0] == b[0] {
        lemma_lex_le_total(a.drop_first(), b.drop_first());
    }
}

/// The order is transitive.
pub proof fn lemma_lex_le_trans(a: Seq<char>, b: Seq<char>, c: Seq<char>)
    requires
        lex_le(a, b),
        lex_le(b, c),
    ensures
        lex_le(a, c),
    decreases a.len(),
{
    if a.len() > 0 && b.len() > 0 && c.len() > 0 && a[0] == b[0] && b[0] == c[0] {
        lemma_lex_le_trans(a.drop_first(), b.drop_first(), c.drop_first());
    }
}

/// The order is antisymmetric: mutual order means equality.
pub proof fn lemma_lex_le_antisym(a: Seq<char>, b: Seq<char>)
    requires
        lex_le(a, b),
        lex_le(b, a),
    ensures
        a == b,
    decreases a.len(),
{
    if a.len() > 0 && b.len() > 0 && a[0] == b[0] {
        lemma_lex_le_antisym(a.drop_first(), b.drop_first());
        assert(a =~= seq![a[0]] + a.drop_first());
        assert(b =~= seq![b[0]] + b.drop_first());
    }
}

/// Decides `lex_le(a@, b@)` on string slices.
pub fn str_le(a: &str, b: &str) -> (r: bool)
    ensures
        r == lex_le(a@, b@),
{
    let la = a.unicode_len();
    let lb = b.unicode_len();
    let mut i: usize = 0;
    proof {
        assert(a@.skip(0) =~= a@);
        assert(b@.skip(0) =~= b@);
    }
    loop
        invariant
            i <= la,
            i <= lb,
            la == a@.len(),
            lb == b@.len(),
            lex_le(a@, b@) == lex_le(a@.skip(i as int), b@.skip(i as int)),
        ensures
            ({
                let ra = a@.skip(i as int);
                let rb = b@.skip(i as int);
                (i == la || i == lb || a@[i as int] != b@[i as int]) && lex_le(a@, b@) == lex_le(
                    ra,
                    rb,
                )
            }),
        decreases la - i,
    {
        if i >= la || i >= lb {
            break ;
        }
        let ca = a.get_char(i);
        let cb = b.get_char(i);
        if ca != cb {
            break ;
        }
        proof {
            let ra = a@.skip(i as int);
            let rb = b@.skip(i as int);
            assert(ra[0] == cb && rb[0] == cb);
            assert(ra.drop_first() =~= a@.skip(i + 1));
            assert(rb.drop_first() =~= b@.skip(i + 1));
        }
        i = i + 1;
    }
    if i >= la {
        proof {
            assert(a@.skip(i as int).len() == 0);
        }
        return true;
    }
    if i >= lb {
        proof {
            assert(b@.skip(i as int).len() == 0);
            assert(a@.skip(i as int).len() > 0);
        }
        return false;
    }
    let ca = a.get_char(i);
    let cb = b.get_char(i);
    proof {
        assert(a@.skip(i as int)[0] == ca);
        assert(b@.skip(i as int)[0] == cb);
    }
    (ca as u32) < (cb as u32)
}

} // verus!
