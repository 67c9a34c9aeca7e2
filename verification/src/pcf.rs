//! The path-conflict-freedom check. A change set for one commit is a list
//! of `(path, is_changed)` pairs sorted in ascending path order; it is
//! conflict-free when no changed path is also a component-wise prefix of a
//! later path, which would make the same name both a file and an ancestor
//! directory within one commit.

use vstd::prelude::*;

use crate::errors::ErrorKind;
use crate::path::{is_prefix, MPath};

verus! {

/// Strict byte-wise lexicographic order on byte strings.
pub open spec fn bytes_lt(a: Seq<u8>, b: Seq<u8>) -> bool
    decreases a.len(),
{
    if a.len() == 0 {
        b.len() > 0
    } else if b.len() == 0 {
        false
    } else if a.first() < b.first() {
        true
    } else if a.first() > b.first() {
        false
    } else {
        bytes_lt(a.drop_first(), b.drop_first())
    }
}

/// Strict lexicographic order on component sequences: a proper prefix sorts
/// before its extensions, and otherwise the first differing component
/// decides byte-wise. Under this order `foo` < `foo/bar` < `foo1`.
pub open spec fn path_lt(a: Seq<Seq<u8>>, b: Seq<Seq<u8>>) -> bool
    decreases a.len(),
{
    if a.len() == 0 {
        b.len() > 0
    } else if b.len() == 0 {
        false
    } else if a.first() != b.first() {
        bytes_lt(a.first(), b.first())
    } else {
        path_lt(a.drop_first(), b.drop_first())
    }
}

/// Non-strict component order.
pub open spec fn path_le(a: Seq<Seq<u8>>, b: Seq<Seq<u8>>) -> bool {
    path_lt(a, b) || a == b
}

/// The strict byte order is asymmetric, and in particular irreflexive.
proof fn lemma_bytes_lt_asymmetric(a: Seq<u8>, b: Seq<u8>)
    requires
        bytes_lt(a, b),
    ensures
        !bytes_lt(b, a),
        a != b,
    decreases a.len(),
{
    if a.len() == 0 {
    } else if a.first() == b.first() {
        lemma_bytes_lt_asymmetric(a.drop_first(), b.drop_first());
        if a == b {
            assert(a.drop_first() == b.drop_first());
        }
    }
}

/// Everything that the component order places between a path and one of its
/// extensions is itself an extension: if `p` is a prefix of `q` and
/// `p <= r <= q`, then `p` is a prefix of `r`. This is why a sorted scan
/// that retains only the most recent changed path finds every conflict.
pub proof fn lemma_prefix_sandwich(p: Seq<Seq<u8>>, r: Seq<Seq<u8>>, q: Seq<Seq<u8>>)
    requires
        is_prefix(p, q),
        path_le(p, r),
        path_le(r, q),
    ensures
        is_prefix(p, r),
    decreases p.len(),
{
    if p.len() == 0 {
        assert(p =~= r.take(0));
    } else if p == r {
        assert(p =~= r.take(p.len() as int));
    } else {
        assert(path_lt(p, r));
        assert(r.len() > 0);
        assert(p.first() == q.take(p.len() as int).first());
        assert(p.first() == q.first());
        if p.first() == r.first() {
            let p1 = p.drop_first();
            let r1 = r.drop_first();
            let q1 = q.drop_first();
            assert(p1 =~= q1.take(p1.len() as int)) by {
                assert(p == q.take(p.len() as int));
                assert forall|i: int| 0 <= i < p1.len() implies p1[i] == q1.take(
                    p1.len() as int,
                )[i] by {
                    assert(p1[i] == p[i + 1]);
                    assert(p[i + 1] == q.take(p.len() as int)[i + 1]);
                }
            }
            assert(is_prefix(p1, q1));
            assert(path_lt(p1, r1));
            if r == q {
                assert(r1 == q1);
            } else {
                assert(path_lt(r, q));
                assert(r.first() == q.first());
                assert(path_lt(r1, q1));
            }
            lemma_prefix_sandwich(p1, r1, q1);
            assert(p =~= r.take(p.len() as int)) by {
                assert(p1 == r1.take(p1.len() as int));
                assert forall|i: int| 0 <= i < p.len() implies p[i] == r.take(
                    p.len() as int,
                )[i] by {
                    if i > 0 {
                        assert(p[i] == p1[i - 1]);
                        assert(p1[i - 1] == r1.take(p1.len() as int)[i - 1]);
                        assert(r1[i - 1] == r[i]);
                    }
                }
            }
        } else {
            assert(bytes_lt(p.first(), r.first()));
            lemma_bytes_lt_asymmetric(p.first(), r.first());
            if r == q {
                assert(r.first() == p.first());
                assert(false);
            } else {
                assert(path_lt(r, q));
                if r.first() == q.first() {
                    assert(false);
                } else {
                    assert(bytes_lt(r.first(), q.first()));
                    assert(bytes_lt(r.first(), p.first()));
                    assert(false);
                }
            }
        }
    }
}

/// Check that a sorted list of `(path, is_changed)` pairs is
/// path-conflict-free: it is accepted exactly when no changed path is a
/// component-wise prefix of any later path in the list, whatever the later
/// path's own flag. On failure the error carries the changed ancestor and
/// the descendant that exposed it.
pub fn check_pcf(sorted_paths: &Vec<(MPath, bool)>) -> (r: Result<(), ErrorKind>)
    requires
        forall|i: int, j: int|
            0 <= i <= j < sorted_paths@.len() ==> path_le(
                #[trigger] sorted_paths@[i].0@,
                #[trigger] sorted_paths@[j].0@,
            ),
    ensures
        match r {
            Ok(()) => forall|i: int, j: int|
                0 <= i < j < sorted_paths@.len() ==> !(sorted_paths@[i].1 && is_prefix(
                    #[trigger] sorted_paths@[i].0@,
                    #[trigger] sorted_paths@[j].0@,
                )),
            Err(e) => {
                &&& e matches ErrorKind::NotPathConflictFree(anc, desc)
                &&& exists|i: int, j: int|
                    0 <= i < j < sorted_paths@.len() && sorted_paths@[i].1 && anc@
                        == #[trigger] sorted_paths@[i].0@ && desc@
                        == #[trigger] sorted_paths@[j].0@ && is_prefix(anc@, desc@)
            },
        },
{
    let n = sorted_paths.len();
    let mut last_changed: Option<usize> = None;
    let mut k: usize = 0;
    while k < n
        invariant
            0 <= k <= n,
            n == sorted_paths@.len(),
            forall|i: int, j: int|
                0 <= i <= j < sorted_paths@.len() ==> path_le(
                    #[trigger] sorted_paths@[i].0@,
                    #[trigger] sorted_paths@[j].0@,
                ),
            match last_changed {
                Some(m) => 0 <= m < k && sorted_paths@[m as int].1 && (forall|i: int|
                    m < i < k ==> !sorted_paths@[i].1),
                None => forall|i: int| 0 <= i < k ==> !sorted_paths@[i].1,
            },
            forall|i: int, j: int|
                0 <= i < j < k ==> !(sorted_paths@[i].1 && is_prefix(
                    #[trigger] sorted_paths@[i].0@,
                    #[trigger] sorted_paths@[j].0@,
                )),
        decreases n - k,
    {
        match last_changed {
            Some(m) => {
                if sorted_paths[m].0.is_prefix_of(&sorted_paths[k].0) {
                    let anc = sorted_paths[m].0.clone();
                    let desc = sorted_paths[k].0.clone();
                    proof {
                        assert(0 <= m < k < sorted_paths@.len() && sorted_paths@[m as int].1
                            && anc@ == sorted_paths@[m as int].0@ && desc@ == sorted_paths@[
                        k as int].0@ && is_prefix(anc@, desc@));
                    }
                    return Err(ErrorKind::NotPathConflictFree(anc, desc));
                }
                proof {
                    assert forall|i: int|
                        0 <= i < k && sorted_paths@[i].1 implies !is_prefix(
                        sorted_paths@[i].0@,
                        sorted_paths@[k as int].0@,
                    ) by {
                        if is_prefix(sorted_paths@[i].0@, sorted_paths@[k as int].0@) {
                            assert(i <= m);
                            if i < m {
                                assert(path_le(sorted_paths@[i].0@, sorted_paths@[m as int].0@));
                                assert(path_le(
                                    sorted_paths@[m as int].0@,
                                    sorted_paths@[k as int].0@,
                                ));
                                lemma_prefix_sandwich(
                                    sorted_paths@[i].0@,
                                    sorted_paths@[m as int].0@,
                                    sorted_paths@[k as int].0@,
                                );
                                assert(false);
                            } else {
                                assert(false);
                            }
                        }
                    }
                }
            },
            None => {
                proof {
                    assert forall|i: int|
                        0 <= i < k && sorted_paths@[i].1 implies !is_prefix(
                        sorted_paths@[i].0@,
                        sorted_paths@[k as int].0@,
                    ) by {}
                }
            },
        }
        if sorted_paths[k].1 {
            last_changed = Some(k);
        }
        k = k + 1;
    }
    Ok(())
}

} // verus!
