use vstd::prelude::*;

use crate::parse::SLASH;
use crate::text::{bytes_eq, subvec, views};

verus! {

/// Exclusion is decided on canonical paths, component by component: a path
/// is excluded exactly when some exclude root's components are a prefix of
/// its own. This is a hierarchical test, not a literal string prefix:
/// `/ab` does not lie under the root `/a`.

/// The first slash at or after `i`, or the length of `s`.
pub open spec fn slash_end(s: Seq<u8>, i: int) -> int
    decreases s.len() - i,
{
    if i < 0 || i >= s.len() {
        s.len() as int
    } else if s[i] == SLASH {
        i
    } else {
        slash_end(s, i + 1)
    }
}

pub proof fn lemma_slash_end(s: Seq<u8>, i: int)
    requires
        0 <= i <= s.len(),
    ensures
        i <= slash_end(s, i) <= s.len(),
        slash_end(s, i) < s.len() ==> s[slash_end(s, i)] == SLASH,
        forall|k: int| i <= k < slash_end(s, i) ==> #[trigger] s[k] != SLASH,
    decreases s.len() - i,
{
    if i < s.len() && s[i] != SLASH {
        lemma_slash_end(s, i + 1);
    }
}

proof fn lemma_slash_end_is(s: Seq<u8>, i: int, j: int)
    requires
        0 <= i <= j <= s.len(),
        forall|k: int| i <= k < j ==> #[trigger] s[k] != SLASH,
        j < s.len() ==> s[j] == SLASH,
    ensures
        slash_end(s, i) == j,
    decreases j - i,
{
    if i < j {
        lemma_slash_end_is(s, i + 1, j);
    }
}

/// The components of a path read from `i` on: the non-empty byte runs
/// between slashes. Repeated and trailing slashes contribute nothing, so
/// `/a//b/` has the components `a`, `b`.
pub open spec fn components_from(s: Seq<u8>, i: int) -> Seq<Seq<u8>>
    decreases s.len() - i,
        when 0 <= i
        via components_decreases
{
    if i >= s.len() {
        Seq::empty()
    } else if s[i] == SLASH {
        components_from(s, i + 1)
    } else {
        let j = slash_end(s, i);
        seq![s.subrange(i, j)] + components_from(s, j)
    }
}

#[via_fn]
proof fn components_decreases(s: Seq<u8>, i: int) {
    if 0 <= i < s.len() && s[i] != SLASH {
        lemma_slash_end(s, i);
    }
}

pub open spec fn components(s: Seq<u8>) -> Seq<Seq<u8>> {
    components_from(s, 0)
}

fn scan_slash(v: &Vec<u8>, i: usize) -> (j: usize)
    requires
        i <= v@.len(),
    ensures
        j == slash_end(v@, i as int),
{
    let mut j: usize = i;
    while j < v.len() && v[j] != SLASH
        invariant
            i <= j <= v@.len(),
            forall|k: int| i <= k < j ==> #[trigger] v@[k] != SLASH,
        decreases v@.len() - j,
    {
        j = j + 1;
    }
    proof {
        lemma_slash_end_is(v@, i as int, j as int);
    }
    j
}

/// Splits a path into its components.
pub fn split_components(v: &Vec<u8>) -> (r: Vec<Vec<u8>>)
    ensures
        views(r@) == components(v@),
{
    let mut out: Vec<Vec<u8>> = Vec::new();
    let mut i: usize = 0;
    proof {
        assert(views(out@) =~= Seq::<Seq<u8>>::empty());
        assert(views(out@) + components_from(v@, 0) =~= components_from(v@, 0));
    }
    while i < v.len()
        invariant
            i <= v@.len(),
            components_from(v@, 0) == views(out@) + components_from(v@, i as int),
        decreases v@.len() - i,
    {
        if v[i] == SLASH {
            i = i + 1;
        } else {
            let j = scan_slash(v, i);
            proof {
                lemma_slash_end(v@, i as int);
            }
            let c = subvec(v, i, j);
            let ghost out0 = out@;
            out.push(c);
            proof {
                assert(views(out@) =~= views(out0) + seq![v@.subrange(i as int, j as int)]);
                assert(views(out0) + (seq![v@.subrange(i as int, j as int)] + components_from(
                    v@,
                    j as int,
                )) =~= views(out@) + components_from(v@, j as int));
            }
            i = j;
        }
    }
    proof {
        assert(views(out@) + Seq::<Seq<u8>>::empty() =~= views(out@));
    }
    out
}

/// Whether the path `p` is the path `root` itself or lies under it,
/// component by component.
pub open spec fn descendant_or_equal(p: Seq<u8>, root: Seq<u8>) -> bool {
    components(root).len() <= components(p).len() && components(root) == components(p).subrange(
        0,
        components(root).len() as int,
    )
}

/// Decides whether `p` equals `root` or lies under it.
pub fn is_descendant_or_equal(p: &Vec<u8>, root: &Vec<u8>) -> (r: bool)
    ensures
        r == descendant_or_equal(p@, root@),
{
    let pc = split_components(p);
    let rc = split_components(root);
    if rc.len() > pc.len() {
        return false;
    }
    let mut k: usize = 0;
    while k < rc.len()
        invariant
            k <= rc@.len() <= pc@.len(),
            views(pc@) == components(p@),
            views(rc@) == components(root@),
            forall|m: int| 0 <= m < k ==> views(rc@)[m] == #[trigger] views(pc@)[m],
        decreases rc@.len() - k,
    {
        if !bytes_eq(&rc[k], &pc[k]) {
            proof {
                assert(views(rc@)[k as int] != views(pc@)[k as int]);
                assert(components(p@).subrange(0, components(root@).len() as int)[k as int]
                    == views(pc@)[k as int]);
            }
            return false;
        }
        k = k + 1;
    }
    proof {
        assert(views(rc@) =~= views(pc@).subrange(0, views(rc@).len() as int));
    }
    true
}

/// Whether the path is excluded: equal to or a descendant of some exclude
/// root.
pub open spec fn spec_excluded(p: Seq<u8>, excludes: Seq<Seq<u8>>) -> bool {
    exists|k: int| 0 <= k < excludes.len() && descendant_or_equal(p, #[trigger] excludes[k])
}

/// Finds the first exclude root that the path equals or lies under.
pub fn find_exclude(p: &Vec<u8>, excludes: &Vec<Vec<u8>>) -> (r: Option<usize>)
    ensures
        match r {
            Option::Some(k) => k < excludes@.len() && descendant_or_equal(p@, excludes@[k as int]@)
                && forall|m: int|
                0 <= m < k ==> !descendant_or_equal(p@, #[trigger] excludes@[m]@),
            Option::None => !spec_excluded(p@, views(excludes@)),
        },
{
    let mut k: usize = 0;
    while k < excludes.len()
        invariant
            k <= excludes@.len(),
            forall|m: int| 0 <= m < k ==> !descendant_or_equal(p@, #[trigger] excludes@[m]@),
        decreases excludes@.len() - k,
    {
        if is_descendant_or_equal(p, &excludes[k]) {
            return Option::Some(k);
        }
        k = k + 1;
    }
    proof {
        assert(forall|m: int| 0 <= m < excludes@.len() ==> views(excludes@)[m] == #[trigger] excludes@[m]@);
    }
    Option::None
}

/// The cleanup walk keeps an archive item exactly when its local
/// counterpart still canonicalizes and is not excluded; a path that fails
/// to canonicalize counts as gone and becomes eligible for deletion.
pub fn exists_and_not_excluded(canonical: &Option<Vec<u8>>, excludes: &Vec<Vec<u8>>) -> (r: bool)
    ensures
        r == (canonical is Some && !spec_excluded(canonical.unwrap()@, views(excludes@))),
{
    match canonical {
        Option::None => false,
        Option::Some(p) => {
            match find_exclude(p, excludes) {
                Option::None => true,
                Option::Some(k) => {
                    proof {
                        assert(views(excludes@)[k as int] == excludes@[k as int]@);
                        assert(descendant_or_equal(p@, views(excludes@)[k as int]));
                    }
                    false
                },
            }
        },
    }
}

/// The walk never acts on an excluded item: a path that the filter admits
/// neither equals any exclude root nor lies under one.
pub proof fn lemma_admitted_path_not_under_exclude(p: Seq<u8>, excludes: Seq<Seq<u8>>, k: int)
    requires
        !spec_excluded(p, excludes),
        0 <= k < excludes.len(),
    ensures
        !descendant_or_equal(p, excludes[k]),
{
}

} // verus!
