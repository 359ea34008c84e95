//! Repository-relative paths as ordered component sequences.
//!
//! A path decomposes into its maximal `/`-free, non-empty components;
//! separators themselves carry no meaning, so repeated or leading slashes
//! add no components.

use vstd::prelude::*;

verus! {

/// Length of the run of non-separator characters in `s` starting at `i`.
pub open spec fn non_slash_run(s: Seq<char>, i: int) -> nat
    decreases s.len() - i,
{
    if i < 0 || i >= s.len() || s[i] == '/' {
        0
    } else {
        1 + non_slash_run(s, i + 1)
    }
}

/// The components of `s` at or after index `i`, in path order.
pub open spec fn spec_components_from(s: Seq<char>, i: int) -> Seq<Seq<char>>
    decreases s.len() - i
        via spec_components_from_decreases
{
    if i < 0 || i >= s.len() {
        seq![]
    } else if s[i] == '/' {
        spec_components_from(s, i + 1)
    } else {
        seq![s.subrange(i, i + non_slash_run(s, i))] + spec_components_from(
            s,
            i + non_slash_run(s, i),
        )
    }
}

#[via_fn]
proof fn spec_components_from_decreases(s: Seq<char>, i: int) {
    if 0 <= i && i < s.len() && s[i] != '/' {
        assert(non_slash_run(s, i) == 1 + non_slash_run(s, i + 1));
        lemma_non_slash_run_props(s, i);
    }
}

/// The ordered components of a whole path.
pub open spec fn spec_components(s: Seq<char>) -> Seq<Seq<char>> {
    spec_components_from(s, 0)
}

/// Facts about a non-separator run: it stays inside the string, nothing in
/// it is a separator, and it ends at a separator or at the end.
proof fn lemma_non_slash_run_props(s: Seq<char>, i: int)
    requires
        0 <= i <= s.len(),
    ensures
        i + non_slash_run(s, i) <= s.len(),
        forall|j: int| i <= j < i + non_slash_run(s, i) ==> #[trigger] s[j] != '/',
        i + non_slash_run(s, i) < s.len() ==> s[i + non_slash_run(s, i)] == '/',
    decreases s.len() - i,
{
    if i < s.len() && s[i] != '/' {
        lemma_non_slash_run_props(s, i + 1);
    }
}

/// A run of exactly `k` non-separators at `i` has `non_slash_run` `k`.
proof fn lemma_non_slash_run_exact(s: Seq<char>, i: int, k: int)
    requires
        0 <= i,
        0 <= k,
        i + k <= s.len(),
        forall|j: int| i <= j < i + k ==> #[trigger] s[j] != '/',
        i + k == s.len() || s[i + k] == '/',
    ensures
        non_slash_run(s, i) == k,
    decreases k,
{
    if k > 0 {
        lemma_non_slash_run_exact(s, i + 1, k - 1);
    }
}

/// Splits a path into its ordered non-empty components.
pub fn path_components(path: &str) -> (r: Vec<String>)
    ensures
        r.deep_view() == spec_components(path@),
{
    let len = path.unicode_len();
    let mut out: Vec<String> = Vec::new();
    let mut i: usize = 0;
    proof {
        assert(out.deep_view() + spec_components_from(path@, 0) =~= spec_components(path@));
    }
    while i < len
        invariant
            i <= len,
            len == path@.len(),
            out.deep_view() + spec_components_from(path@, i as int) == spec_components(path@),
        decreases len - i,
    {
        let ghost prev = out.deep_view();
        let c = path.get_char(i);
        if c == '/' {
            proof {
                assert(prev + spec_components_from(path@, i + 1) =~= prev + spec_components_from(
                    path@,
                    i as int,
                ));
            }
            i = i + 1;
        } else {
            let mut j = i + 1;
            while j < len
                invariant
                    i < j <= len,
                    len == path@.len(),
                    forall|m: int| i <= m < j ==> #[trigger] path@[m] != '/',
                ensures
                    i < j <= len,
                    forall|m: int| i <= m < j ==> #[trigger] path@[m] != '/',
                    j == len || path@[j as int] == '/',
                decreases len - j,
            {
                if path.get_char(j) == '/' {
                    break ;
                }
                j = j + 1;
            }
            proof {
                lemma_non_slash_run_exact(path@, i as int, j - i);
            }
            let comp = path.substring_char(i, j).to_owned();
            out.push(comp);
            proof {
                assert(comp@ == path@.subrange(i as int, j as int));
                assert(out.deep_view() =~= prev + seq![comp@]);
                assert(out.deep_view() + spec_components_from(path@, j as int)
                    =~= spec_components(path@));
            }
            i = j;
        }
    }
    out
}

/// `p` is the component-wise prefix of `q`.
pub open spec fn components_prefix(p: Seq<Seq<char>>, q: Seq<Seq<char>>) -> bool {
    p.len() <= q.len() && p =~= q.subrange(0, p.len() as int)
}

/// Components joined back into a path with single separators.
pub open spec fn spec_join(cs: Seq<Seq<char>>) -> Seq<char>
    decreases cs.len(),
{
    if cs.len() == 0 {
        seq![]
    } else if cs.len() == 1 {
        cs[0]
    } else {
        spec_join(cs.drop_last()) + seq!['/'] + cs.last()
    }
}

/// Joins components into a path with single separators.
pub fn join_components(cs: &Vec<String>) -> (r: String)
    ensures
        r@ == spec_join(cs.deep_view()),
{
    let mut out = String::new();
    let n = cs.len();
    let mut i: usize = 0;
    while i < n
        invariant
            i <= n,
            n == cs@.len(),
            out@ == spec_join(cs.deep_view().subrange(0, i as int)),
        decreases n - i,
    {
        if i > 0 {
            out.append("/");
            proof {
                reveal_strlit("/");
                assert("/"@ =~= seq!['/']);
            }
        }
        out.append(cs[i].as_str());
        proof {
            let dv = cs.deep_view();
            assert(dv.subrange(0, i + 1).drop_last() =~= dv.subrange(0, i as int));
            assert(dv.subrange(0, i + 1).last() == dv[i as int]);
            assert(out@ =~= spec_join(dv.subrange(0, i + 1)));
        }
        i = i + 1;
    }
    proof {
        assert(cs.deep_view().subrange(0, n as int) =~= cs.deep_view());
    }
    out
}

/// The path relative to `base`: what remains of `path`'s components when
/// `base`'s components are a prefix of them, the path itself otherwise.
pub open spec fn spec_path_in_repo(path: Seq<char>, base: Seq<char>) -> Seq<char> {
    let pc = spec_components(path);
    let bc = spec_components(base);
    if components_prefix(bc, pc) {
        spec_join(pc.skip(bc.len() as int))
    } else {
        path
    }
}

/// Strips `base`, component-wise, from the front of `path`. A path not
/// under `base` comes back unchanged.
pub fn strip_path_prefix(path: &str, base: &str) -> (r: String)
    ensures
        r@ == spec_path_in_repo(path@, base@),
{
    let pc = path_components(path);
    let bc = path_components(base);
    let ghost pcv = spec_components(path@);
    let ghost bcv = spec_components(base@);
    let np = pc.len();
    let nb = bc.len();
    if nb > np {
        return String::from_str(path);
    }
    let mut i: usize = 0;
    while i < nb
        invariant
            i <= nb,
            nb == bcv.len(),
            np == pcv.len(),
            nb <= np,
            pcv == pc.deep_view(),
            bcv == bc.deep_view(),
            pcv == spec_components(path@),
            bcv == spec_components(base@),
            forall|m: int| 0 <= m < i ==> #[trigger] bcv[m] == pcv[m],
        decreases nb - i,
    {
        let same = pc[i] == bc[i];
        proof {
            assert(pc.deep_view()[i as int] == pc@[i as int]@);
            assert(bc.deep_view()[i as int] == bc@[i as int]@);
        }
        if !same {
            proof {
                assert(!components_prefix(bcv, pcv)) by {
                    if components_prefix(bcv, pcv) {
                        assert(bcv[i as int] == pcv.subrange(0, bcv.len() as int)[i as int]);
                    }
                }
            }
            return String::from_str(path);
        }
        i = i + 1;
    }
    proof {
        assert(bcv =~= pcv.subrange(0, bcv.len() as int));
        assert(components_prefix(bcv, pcv));
    }
    let mut rest: Vec<String> = Vec::new();
    let mut k: usize = nb;
    while k < np
        invariant
            nb <= k <= np,
            np == pcv.len(),
            nb == bcv.len(),
            np == pc@.len(),
            pcv == pc.deep_view(),
            pcv == spec_components(path@),
            bcv == spec_components(base@),
            components_prefix(bcv, pcv),
            rest.deep_view() == pcv.subrange(nb as int, k as int),
        decreases np - k,
    {
        let ghost before = rest.deep_view();
        let comp = pc[k].clone();
        proof {
            assert(pc.deep_view()[k as int] == pc@[k as int]@);
            assert(pcv[k as int] == pc@[k as int]@);
            assert(comp@ == pcv[k as int]);
        }
        rest.push(comp);
        proof {
            assert(rest.deep_view() =~= before + seq![pcv[k as int]]);
            assert(before + seq![pcv[k as int]] =~= pcv.subrange(nb as int, k + 1));
        }
        k = k + 1;
    }
    proof {
        assert(pcv.subrange(nb as int, np as int) =~= pcv.skip(nb as int));
    }
    join_components(&rest)
}

} // verus!
