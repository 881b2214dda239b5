//! Carrying top-level classes from one decoded save into another.

use vstd::prelude::*;
use crate::model::{SaveTree, ClassV, first_key, find_top, lemma_first_key, lemma_first_key_range, is_first_key, lemma_tree_set_class};
use crate::schema::{migrated_classes, migrated_class_list, HUNTER_RECORD_KEY};

verus! {

/// Copying the classes listed in `hs`, in order, from `sw` into `pc`: for each
/// hash (other than `skip`) that both saves hold, the first class of `pc` under
/// it becomes the first class of `sw` under it. Gives the resulting entries and
/// the number of classes copied.
pub open spec fn copy_run(
    pc: Seq<(u32, ClassV)>,
    sw: Seq<(u32, ClassV)>,
    hs: Seq<u32>,
    skip: Option<u32>,
) -> (Seq<(u32, ClassV)>, nat)
    decreases hs.len(),
{
    if hs.len() == 0 {
        (pc, 0)
    } else {
        let (p, n) = copy_run(pc, sw, hs.drop_last(), skip);
        let h = hs.last();
        if skip == Some(h) {
            (p, n)
        } else if first_key(sw, h) >= 0 && first_key(p, h) >= 0 {
            (p.update(first_key(p, h), (h, sw[first_key(sw, h)].1)), n + 1)
        } else {
            (p, n)
        }
    }
}

/// Copy the classes listed in `hashes` (skipping `skip`) from `sw` into `pc`
/// (see `copy_run`); returns how many were copied.
pub fn copy_top_classes(pc: &mut SaveTree, sw: &SaveTree, hashes: &Vec<u32>, skip: Option<u32>) -> (copied: usize)
    ensures
        (final(pc)@, copied as nat) == copy_run(old(pc)@, sw@, hashes@, skip),
{
    let mut copied: usize = 0;
    let mut i: usize = 0;
    while i < hashes.len()
        invariant
            i <= hashes@.len(),
            copied <= i,
            (pc@, copied as nat) == copy_run(old(pc)@, sw@, hashes@.take(i as int), skip),
        decreases hashes@.len() - i,
    {
        let h = hashes[i];
        proof {
            assert(hashes@.take(i + 1).drop_last() =~= hashes@.take(i as int));
            assert(hashes@.take(i + 1).last() == h);
        }
        let skipped = match skip {
            Some(x) => x == h,
            None => false,
        };
        if !skipped {
            match find_top(&sw.fields, h) {
                Some(s) => match find_top(&pc.fields, h) {
                    Some(d) => {
                        proof {
                            lemma_first_key(sw@, h, s as int);
                            lemma_first_key(pc@, h, d as int);
                        }
                        let c = sw.fields[s].1.duplicate();
                        let ghost before = *pc;
                        pc.fields[d].1 = c;
                        proof {
                            lemma_tree_set_class(before, *pc, d as int, c);
                        }
                        copied += 1;
                    },
                    None => {},
                },
                None => {},
            }
        }
        i += 1;
    }
    assert(hashes@.take(hashes@.len() as int) =~= hashes@);
    copied
}

/// Copying never changes which class hashes a save holds, nor their order.
pub proof fn lemma_copy_run_keys(pc: Seq<(u32, ClassV)>, sw: Seq<(u32, ClassV)>, hs: Seq<u32>, skip: Option<u32>)
    ensures
        copy_run(pc, sw, hs, skip).0.len() == pc.len(),
        forall|k: int| 0 <= k < pc.len() ==> #[trigger] copy_run(pc, sw, hs, skip).0[k].0 == pc[k].0,
        copy_run(pc, sw, hs, skip).1 <= hs.len(),
    decreases hs.len(),
{
    if hs.len() > 0 {
        lemma_copy_run_keys(pc, sw, hs.drop_last(), skip);
        let p = copy_run(pc, sw, hs.drop_last(), skip).0;
        let h = hs.last();
        lemma_first_key_range(p, h);
    }
}

proof fn lemma_first_key_same_keys(a: Seq<(u32, ClassV)>, b: Seq<(u32, ClassV)>, h: u32)
    requires
        a.len() == b.len(),
        forall|k: int| 0 <= k < a.len() ==> #[trigger] a[k].0 == b[k].0,
    ensures
        first_key(a, h) == first_key(b, h),
{
    lemma_first_key_range(a, h);
    lemma_first_key_range(b, h);
    if first_key(a, h) >= 0 {
        let k = first_key(a, h);
        assert forall|j: int| 0 <= j < k implies #[trigger] b[j].0 != h by {
            assert(a[j].0 == b[j].0);
        }
        assert(is_first_key(b, h, k));
        lemma_first_key(b, h, k);
    } else if first_key(b, h) >= 0 {
        let k = first_key(b, h);
        assert forall|j: int| 0 <= j < k implies #[trigger] a[j].0 != h by {
            assert(a[j].0 == b[j].0);
        }
        assert(is_first_key(a, h, k));
        lemma_first_key(a, h, k);
    }
}

/// What a migration does to the slot it writes into. For every listed hash
/// other than `skip` that both saves hold, the first class of `pc` under that
/// hash ends up equal to the first class of `sw` under it; every other entry of
/// `pc` is left as it was, and the set and order of hashes never changes.
pub proof fn lemma_copy_run_effect(pc: Seq<(u32, ClassV)>, sw: Seq<(u32, ClassV)>, hs: Seq<u32>, skip: Option<u32>)
    ensures
        forall|i: int|
            0 <= i < hs.len() && skip != Some(hs[i]) && first_key(sw, hs[i]) >= 0 && first_key(pc, hs[i]) >= 0
                ==> #[trigger] copy_run(pc, sw, hs, skip).0[first_key(pc, hs[i])] == (hs[i], sw[first_key(sw, hs[i])].1),
        forall|k: int|
            0 <= k < pc.len() && !(exists|i: int|
                0 <= i < hs.len() && skip != Some(hs[i]) && first_key(sw, hs[i]) >= 0 && #[trigger] first_key(pc, hs[i]) == k)
                ==> #[trigger] copy_run(pc, sw, hs, skip).0[k] == pc[k],
    decreases hs.len(),
{
    lemma_copy_run_keys(pc, sw, hs, skip);
    if hs.len() > 0 {
        let prev = hs.drop_last();
        lemma_copy_run_effect(pc, sw, prev, skip);
        lemma_copy_run_keys(pc, sw, prev, skip);
        let p = copy_run(pc, sw, prev, skip).0;
        let h = hs.last();
        lemma_first_key_same_keys(pc, p, h);
        lemma_first_key_range(pc, h);
        let r = copy_run(pc, sw, hs, skip).0;
        assert forall|i: int|
            0 <= i < hs.len() && skip != Some(hs[i]) && first_key(sw, hs[i]) >= 0 && first_key(pc, hs[i]) >= 0
            implies #[trigger] r[first_key(pc, hs[i])] == (hs[i], sw[first_key(sw, hs[i])].1) by {
            let hi = hs[i];
            lemma_first_key_range(pc, hi);
            lemma_first_key_same_keys(pc, p, hi);
            if i < hs.len() - 1 {
                assert(prev[i] == hi);
                if hi != h && skip != Some(h) && first_key(sw, h) >= 0 && first_key(p, h) >= 0 {
                    assert(first_key(pc, hi) != first_key(pc, h));
                }
            }
        }
        assert forall|k: int|
            0 <= k < pc.len() && !(exists|i: int|
                0 <= i < hs.len() && skip != Some(hs[i]) && first_key(sw, hs[i]) >= 0 && #[trigger] first_key(pc, hs[i]) == k)
            implies #[trigger] r[k] == pc[k] by {
            assert(!(exists|i: int|
                0 <= i < prev.len() && skip != Some(prev[i]) && first_key(sw, prev[i]) >= 0 && #[trigger] first_key(pc, prev[i]) == k)) by {
                if exists|i: int|
                    0 <= i < prev.len() && skip != Some(prev[i]) && first_key(sw, prev[i]) >= 0 && #[trigger] first_key(pc, prev[i]) == k {
                    let i = choose|i: int|
                        0 <= i < prev.len() && skip != Some(prev[i]) && first_key(sw, prev[i]) >= 0 && #[trigger] first_key(pc, prev[i]) == k;
                    assert(hs[i] == prev[i]);
                }
            }
            if skip != Some(h) && first_key(sw, h) >= 0 && first_key(p, h) >= 0 {
                assert(hs[hs.len() - 1] == h);
                assert(first_key(pc, h) != k);
            }
        }
    }
}

/// Carry the migrated classes (`migrated_classes`) of a source slot `sw` into
/// the target slot `pc`; returns how many were copied.
pub fn migrate(sw: &SaveTree, pc: &mut SaveTree) -> (copied: usize)
    ensures
        (final(pc)@, copied as nat) == copy_run(old(pc)@, sw@, migrated_classes(), None),
{
    let hs = migrated_class_list();
    copy_top_classes(pc, sw, &hs, None)
}

/// The class step of a Steam-to-Steam migration into a target template: the
/// same classes as `migrate`.
pub fn migrate_x(src: &SaveTree, template: &mut SaveTree) -> (copied: usize)
    ensures
        (final(template)@, copied as nat) == copy_run(old(template)@, src@, migrated_classes(), None),
{
    migrate(src, template)
}

/// The class step of a Steam-to-Steam migration that keeps the target
/// account's identity: every migrated class except the hunter record
/// (`HUNTER_RECORD_KEY`), which stays the template's.
pub fn migrate_acct(src: &SaveTree, template: &mut SaveTree) -> (copied: usize)
    ensures
        (final(template)@, copied as nat) == copy_run(old(template)@, src@, migrated_classes(), Some(HUNTER_RECORD_KEY)),
{
    let hs = migrated_class_list();
    copy_top_classes(template, src, &hs, Some(HUNTER_RECORD_KEY))
}

} // verus!

verus! {

/// Copying the given (hash, class) entries, in order, over the first class
/// of `pc` under each hash, with the number copied.
pub open spec fn slice_run(pc: Seq<(u32, ClassV)>, srcs: Seq<(u32, ClassV)>) -> (Seq<(u32, ClassV)>, nat)
    decreases srcs.len(),
{
    if srcs.len() == 0 {
        (pc, 0)
    } else {
        let (p, n) = slice_run(pc, srcs.drop_last());
        let h = srcs.last().0;
        if first_key(p, h) >= 0 {
            (p.update(first_key(p, h), (h, srcs.last().1)), n + 1)
        } else {
            (p, n)
        }
    }
}

/// The smaller of two counts.
pub open spec fn min_len(n: usize, len: nat) -> int {
    if n < len { n as int } else { len as int }
}

/// Copy classes of `sw` into `pc`: the first class stored under `hash_top`
/// when it is non-zero, otherwise the first `n` top-level classes of `sw`
/// (each over the first class of `pc` with the same hash). Returns how many
/// were copied.
pub fn slice_classes(pc: &mut SaveTree, sw: &SaveTree, hash_top: u32, n: usize) -> (copied: usize)
    ensures
        hash_top != 0 ==> (final(pc)@, copied as nat) == copy_run(old(pc)@, sw@, seq![hash_top], None),
        hash_top == 0 ==> (final(pc)@, copied as nat) == slice_run(old(pc)@, sw@.take(min_len(n, sw@.len()))),
{
    if hash_top != 0 {
        let hs = vec![hash_top];
        assert(hs@ =~= seq![hash_top]);
        return copy_top_classes(pc, sw, &hs, None);
    }
    let m = if n < sw.fields.len() { n } else { sw.fields.len() };
    let mut copied: usize = 0;
    let mut i: usize = 0;
    while i < m
        invariant
            m == min_len(n, sw@.len()),
            m <= sw.fields@.len(),
            i <= m,
            copied <= i,
            (pc@, copied as nat) == slice_run(old(pc)@, sw@.take(i as int)),
        decreases m - i,
    {
        let h = sw.fields[i].0;
        proof {
            assert(sw@.take(i + 1).drop_last() =~= sw@.take(i as int));
            assert(sw@.take(i + 1).last() == sw@[i as int]);
            assert(sw@[i as int] == (h, crate::model::class_view(sw.fields@[i as int].1)));
        }
        match find_top(&pc.fields, h) {
            Some(d) => {
                proof {
                    lemma_first_key(pc@, h, d as int);
                }
                let c = sw.fields[i].1.duplicate();
                let ghost before = *pc;
                pc.fields[d].1 = c;
                proof {
                    lemma_tree_set_class(before, *pc, d as int, c);
                }
                copied += 1;
            },
            None => {},
        }
        i += 1;
    }
    copied
}

/// The number of hashes of `hs` that `sw` does not hold.
pub open spec fn missing_count(sw: Seq<(u32, ClassV)>, hs: Seq<u32>) -> nat
    decreases hs.len(),
{
    if hs.len() == 0 {
        0
    } else {
        missing_count(sw, hs.drop_last()) + if first_key(sw, hs.last()) < 0 { 1nat } else { 0nat }
    }
}

/// How many classes a slot migration copied, and how many of the migrated
/// classes the source lacks.
#[derive(Debug, Clone, Copy, PartialEq, Eq)]
pub struct MigrationCount {
    pub copied: usize,
    pub missing: usize,
}

/// Carry every migrated class (`migrated_classes`) of the source slot `sw`
/// into the target slot `pc`, counting the classes copied and those the source
/// lacks.
pub fn migrate_all_classes(pc: &mut SaveTree, sw: &SaveTree) -> (r: MigrationCount)
    ensures
        (final(pc)@, r.copied as nat) == copy_run(old(pc)@, sw@, migrated_classes(), None),
        r.missing as nat == missing_count(sw@, migrated_classes()),
{
    let hs = migrated_class_list();
    let mut missing: usize = 0;
    let mut i: usize = 0;
    while i < hs.len()
        invariant
            hs@ == migrated_classes(),
            i <= hs@.len(),
            missing <= i,
            missing as nat == missing_count(sw@, hs@.take(i as int)),
        decreases hs@.len() - i,
    {
        proof {
            assert(hs@.take(i + 1).drop_last() =~= hs@.take(i as int));
        }
        match find_top(&sw.fields, hs[i]) {
            Some(_) => {},
            None => {
                missing += 1;
            },
        }
        i += 1;
    }
    assert(hs@.take(hs@.len() as int) =~= hs@);
    let copied = copy_top_classes(pc, sw, &hs, None);
    MigrationCount { copied, missing }
}

} // verus!
