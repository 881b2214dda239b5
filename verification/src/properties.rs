//! Laws that pin what the migrations, assignments, hunter-entry copies,
//! listings and entry clearing do, stated over their inputs and results.

use vstd::prelude::*;
use crate::model::{ClassV, Value, EnumValue, first_key, is_first_key, lemma_first_key, lemma_first_key_range};
use crate::migrate::{copy_run, lemma_copy_run_effect};
use crate::schema::{migrated_classes, link_enum_fields, target_bound_fields};
use crate::assign::{scalar_from_text, FloatText};
use crate::arraytext::{decimal, lemma_decimal_reads_back};
use crate::hunter::{linked_entry, merged_entry};
use crate::extract::{has_level};
use crate::records::{entry_carried, empty_entry_index, hunter_array, class_elem, with_use_index, kept_use_index};
use crate::slot::first_field;

verus! {

/// The keys of the top-level classes that a slot migration carries from the
/// source slot into the target slot: every class of a slot but the DLC
/// record (`0x1f613294`) and the network data.
pub open spec fn carried_key(h: u32) -> bool {
    h == h == 0xd6f4726d
        || h == 0x9ccc3b1e
        || h == 0xb0ca70c9
        || h == 0xf2fb669a
        || h == 0x1e32797d
        || h == 0x355c8c4f
        || h == 0x164d2e71
        || h == 0x51dcd6fb
        || h == 0xb9c15dcf
        || h == 0xadc075b6
        || h == 0x20d9167c
        || h == 0x93819625
        || h == 0x8512ab74
        || h == 0x553d33b8
        || h == 0x68344f29
        || h == 0x8c6fb4c6
        || h == 0x1322883a
        || h == 0xa81238c6
        || h == 0xaaca38e3
        || h == 0x22a8b022
        || h == 0x3da5b9de
        || h == 0xa21e01ad
        || h == 0x0386f39d
        || h == 0xe825861b
        || h == 0x356f270b
        || h == 0xef78287f
        || h == 0xf5e018a4
        || h == 0xdc00f45c
        || h == 0xddb8e034
        || h == 0x4423bc21
        || h == 0xcf6c5091
        || h == 0x81fcc8f4
        || h == 0xab109098
        || h == 0xd5f91c48
}

proof fn lemma_carried_listed(h: u32) -> (i: int)
    requires
        carried_key(h),
    ensures
        0 <= i < migrated_classes().len(),
        migrated_classes()[i] == h,
{
    let hs = migrated_classes();
    if h == 0xd6f4726d {
        assert(hs[0] == h);
    } else if h == 0x9ccc3b1e {
        assert(hs[1] == h);
    } else if h == 0xb0ca70c9 {
        assert(hs[2] == h);
    } else if h == 0xf2fb669a {
        assert(hs[3] == h);
    } else if h == 0x1e32797d {
        assert(hs[4] == h);
    } else if h == 0x355c8c4f {
        assert(hs[5] == h);
    } else if h == 0x164d2e71 {
        assert(hs[6] == h);
    } else if h == 0x51dcd6fb {
        assert(hs[7] == h);
    } else if h == 0xb9c15dcf {
        assert(hs[8] == h);
    } else if h == 0xadc075b6 {
        assert(hs[9] == h);
    } else if h == 0x20d9167c {
        assert(hs[10] == h);
    } else if h == 0x93819625 {
        assert(hs[11] == h);
    } else if h == 0x8512ab74 {
        assert(hs[12] == h);
    } else if h == 0x553d33b8 {
        assert(hs[13] == h);
    } else if h == 0x68344f29 {
        assert(hs[14] == h);
    } else if h == 0x8c6fb4c6 {
        assert(hs[15] == h);
    } else if h == 0x1322883a {
        assert(hs[16] == h);
    } else if h == 0xa81238c6 {
        assert(hs[17] == h);
    } else if h == 0xaaca38e3 {
        assert(hs[18] == h);
    } else if h == 0x22a8b022 {
        assert(hs[19] == h);
    } else if h == 0x3da5b9de {
        assert(hs[20] == h);
    } else if h == 0xa21e01ad {
        assert(hs[21] == h);
    } else if h == 0x0386f39d {
        assert(hs[22] == h);
    } else if h == 0xe825861b {
        assert(hs[23] == h);
    } else if h == 0x356f270b {
        assert(hs[24] == h);
    } else if h == 0xef78287f {
        assert(hs[25] == h);
    } else if h == 0xf5e018a4 {
        assert(hs[26] == h);
    } else if h == 0xdc00f45c {
        assert(hs[27] == h);
    } else if h == 0xddb8e034 {
        assert(hs[28] == h);
    } else if h == 0x4423bc21 {
        assert(hs[29] == h);
    } else if h == 0xcf6c5091 {
        assert(hs[30] == h);
    } else if h == 0x81fcc8f4 {
        assert(hs[31] == h);
    } else if h == 0xab109098 {
        assert(hs[32] == h);
    } else if h == 0xd5f91c48 {
        assert(hs[33] == h);
    }
    choose|i: int| 0 <= i < hs.len() && hs[i] == h
}

proof fn lemma_listed_carried(i: int)
    requires
        0 <= i < migrated_classes().len(),
    ensures
        carried_key(migrated_classes()[i]),
{
    let hs = migrated_classes();
    assert(hs.len() == 34);
    if i == 0 {
            assert(hs[0] == 0xd6f4726d);
        } else if i == 1 {
            assert(hs[1] == 0x9ccc3b1e);
        } else if i == 2 {
            assert(hs[2] == 0xb0ca70c9);
        } else if i == 3 {
            assert(hs[3] == 0xf2fb669a);
        } else if i == 4 {
            assert(hs[4] == 0x1e32797d);
        } else if i == 5 {
            assert(hs[5] == 0x355c8c4f);
        } else if i == 6 {
            assert(hs[6] == 0x164d2e71);
        } else if i == 7 {
            assert(hs[7] == 0x51dcd6fb);
        } else if i == 8 {
            assert(hs[8] == 0xb9c15dcf);
        } else if i == 9 {
            assert(hs[9] == 0xadc075b6);
        } else if i == 10 {
            assert(hs[10] == 0x20d9167c);
        } else if i == 11 {
            assert(hs[11] == 0x93819625);
        } else if i == 12 {
            assert(hs[12] == 0x8512ab74);
        } else if i == 13 {
            assert(hs[13] == 0x553d33b8);
        } else if i == 14 {
            assert(hs[14] == 0x68344f29);
        } else if i == 15 {
            assert(hs[15] == 0x8c6fb4c6);
        } else if i == 16 {
            assert(hs[16] == 0x1322883a);
        } else if i == 17 {
            assert(hs[17] == 0xa81238c6);
        } else if i == 18 {
            assert(hs[18] == 0xaaca38e3);
        } else if i == 19 {
            assert(hs[19] == 0x22a8b022);
        } else if i == 20 {
            assert(hs[20] == 0x3da5b9de);
        } else if i == 21 {
            assert(hs[21] == 0xa21e01ad);
        } else if i == 22 {
            assert(hs[22] == 0x0386f39d);
        } else if i == 23 {
            assert(hs[23] == 0xe825861b);
        } else if i == 24 {
            assert(hs[24] == 0x356f270b);
        } else if i == 25 {
            assert(hs[25] == 0xef78287f);
        } else if i == 26 {
            assert(hs[26] == 0xf5e018a4);
        } else if i == 27 {
            assert(hs[27] == 0xdc00f45c);
        } else if i == 28 {
            assert(hs[28] == 0xddb8e034);
        } else if i == 29 {
            assert(hs[29] == 0x4423bc21);
        } else if i == 30 {
            assert(hs[30] == 0xcf6c5091);
        } else if i == 31 {
            assert(hs[31] == 0x81fcc8f4);
        } else if i == 32 {
            assert(hs[32] == 0xab109098);
        } else if i == 33 {
            assert(hs[33] == 0xd5f91c48);
        }
}

/// A migration carries every class it lists: for each carried key that
/// both slots hold, the target's first class under that key becomes the
/// source's first class under it.
pub proof fn law_migration_carries_listed_classes(pc: Seq<(u32, ClassV)>, sw: Seq<(u32, ClassV)>, h: u32)
    requires
        carried_key(h),
        first_key(sw, h) >= 0,
        first_key(pc, h) >= 0,
    ensures
        copy_run(pc, sw, migrated_classes(), None).0[first_key(pc, h)] == (h, sw[first_key(sw, h)].1),
{
    let i = lemma_carried_listed(h);
    lemma_copy_run_effect(pc, sw, migrated_classes(), None);
    assert(copy_run(pc, sw, migrated_classes(), None).0[first_key(pc, migrated_classes()[i])]
        == (migrated_classes()[i], sw[first_key(sw, migrated_classes()[i])].1));
}

/// A migration leaves alone every class under a key it does not carry.
pub proof fn law_migration_leaves_other_classes(pc: Seq<(u32, ClassV)>, sw: Seq<(u32, ClassV)>, h: u32)
    requires
        !carried_key(h),
        first_key(pc, h) >= 0,
    ensures
        copy_run(pc, sw, migrated_classes(), None).0[first_key(pc, h)] == pc[first_key(pc, h)],
{
    let hs = migrated_classes();
    let k = first_key(pc, h);
    lemma_first_key_range(pc, h);
    lemma_copy_run_effect(pc, sw, hs, None);
    assert(!(exists|i: int|
        0 <= i < hs.len() && None::<u32> != Some(hs[i]) && first_key(sw, hs[i]) >= 0 && #[trigger] first_key(pc, hs[i]) == k)) by {
        if exists|i: int|
            0 <= i < hs.len() && None::<u32> != Some(hs[i]) && first_key(sw, hs[i]) >= 0 && #[trigger] first_key(pc, hs[i]) == k {
            let i = choose|i: int|
                0 <= i < hs.len() && None::<u32> != Some(hs[i]) && first_key(sw, hs[i]) >= 0 && #[trigger] first_key(pc, hs[i]) == k;
            lemma_first_key_range(pc, hs[i]);
            lemma_listed_carried(i);
        }
    }
}

/// A `VAL` assignment to an integer field reads the decimal text of any
/// number in the field type's full range as that number, and refuses one
/// beyond it; a 32-bit enum reads any `i32`.
pub proof fn law_val_reads_decimal(old: Value, n: int, fl: FloatText)
    ensures
        old is U8 && 0 <= n <= 0xff ==> scalar_from_text(old, decimal(n), fl) == Some(Value::U8(n as u8)),
        old is U8 && n > 0xff ==> scalar_from_text(old, decimal(n), fl) is None,
        old is U16 && 0 <= n <= 0xffff ==> scalar_from_text(old, decimal(n), fl) == Some(Value::U16(n as u16)),
        old is U16 && n > 0xffff ==> scalar_from_text(old, decimal(n), fl) is None,
        old is U32 && 0 <= n <= 0xffff_ffff ==> scalar_from_text(old, decimal(n), fl) == Some(Value::U32(n as u32)),
        old is U32 && n > 0xffff_ffff ==> scalar_from_text(old, decimal(n), fl) is None,
        old is U64 && 0 <= n <= 0xffff_ffff_ffff_ffff ==> scalar_from_text(old, decimal(n), fl) == Some(Value::U64(n as u64)),
        old is U64 && n > 0xffff_ffff_ffff_ffff ==> scalar_from_text(old, decimal(n), fl) is None,
        old is S8 && -0x80 <= n <= 0x7f ==> scalar_from_text(old, decimal(n), fl) == Some(Value::S8(n as i8)),
        old is S8 && (n < -0x80 || n > 0x7f) ==> scalar_from_text(old, decimal(n), fl) is None,
        old is S16 && -0x8000 <= n <= 0x7fff ==> scalar_from_text(old, decimal(n), fl) == Some(Value::S16(n as i16)),
        old is S16 && (n < -0x8000 || n > 0x7fff) ==> scalar_from_text(old, decimal(n), fl) is None,
        old is S32 && -0x8000_0000 <= n <= 0x7fff_ffff ==> scalar_from_text(old, decimal(n), fl) == Some(Value::S32(n as i32)),
        old is S32 && (n < -0x8000_0000 || n > 0x7fff_ffff) ==> scalar_from_text(old, decimal(n), fl) is None,
        old is S64 && -0x8000_0000_0000_0000 <= n <= 0x7fff_ffff_ffff_ffff ==> scalar_from_text(old, decimal(n), fl) == Some(Value::S64(n as i64)),
        old is S64 && (n < -0x8000_0000_0000_0000 || n > 0x7fff_ffff_ffff_ffff) ==> scalar_from_text(old, decimal(n), fl) is None,
        old is Enum && old->Enum_0 is E4 && -0x8000_0000 <= n <= 0x7fff_ffff ==> scalar_from_text(old, decimal(n), fl) == Some(Value::Enum(EnumValue::E4(n as i32))),
{
    if old is U8 {
        if 0 <= n <= 0xff {
            lemma_decimal_reads_back(n, false, 0, 0xff);
        } else if n >= 0 || false {
            lemma_decimal_reads_back(n, false, n, n);
        }
    }
    if old is U16 {
        if 0 <= n <= 0xffff {
            lemma_decimal_reads_back(n, false, 0, 0xffff);
        } else if n >= 0 || false {
            lemma_decimal_reads_back(n, false, n, n);
        }
    }
    if old is U32 {
        if 0 <= n <= 0xffff_ffff {
            lemma_decimal_reads_back(n, false, 0, 0xffff_ffff);
        } else if n >= 0 || false {
            lemma_decimal_reads_back(n, false, n, n);
        }
    }
    if old is U64 {
        if 0 <= n <= 0xffff_ffff_ffff_ffff {
            lemma_decimal_reads_back(n, false, 0, 0xffff_ffff_ffff_ffff);
        } else if n >= 0 || false {
            lemma_decimal_reads_back(n, false, n, n);
        }
    }
    if old is S8 {
        if -0x80 <= n <= 0x7f {
            lemma_decimal_reads_back(n, true, -0x80, 0x7f);
        } else if n >= 0 || true {
            lemma_decimal_reads_back(n, true, n, n);
        }
    }
    if old is S16 {
        if -0x8000 <= n <= 0x7fff {
            lemma_decimal_reads_back(n, true, -0x8000, 0x7fff);
        } else if n >= 0 || true {
            lemma_decimal_reads_back(n, true, n, n);
        }
    }
    if old is S32 {
        if -0x8000_0000 <= n <= 0x7fff_ffff {
            lemma_decimal_reads_back(n, true, -0x8000_0000, 0x7fff_ffff);
        } else if n >= 0 || true {
            lemma_decimal_reads_back(n, true, n, n);
        }
    }
    if old is S64 {
        if -0x8000_0000_0000_0000 <= n <= 0x7fff_ffff_ffff_ffff {
            lemma_decimal_reads_back(n, true, -0x8000_0000_0000_0000, 0x7fff_ffff_ffff_ffff);
        } else if n >= 0 || true {
            lemma_decimal_reads_back(n, true, n, n);
        }
    }
    if old is Enum && -0x8000_0000 <= n <= 0x7fff_ffff {
        lemma_decimal_reads_back(n, true, -0x8000_0000, 0x7fff_ffff);
    }
}

/// The hunter-entry fields derived from the system file's link word
/// (`_CurrentVillageNo` and three more).
pub open spec fn link_derived(h: u32) -> bool {
    h == 0x9eb56094 || h == 0xed59430c || h == 0x8a471883 || h == 0xf4deaf65
}

proof fn lemma_link_derived(h: u32)
    ensures
        link_enum_fields().contains(h) <==> link_derived(h),
        target_bound_fields().contains(h) <==> (link_derived(h) || h == 0xe40fc0cd),
{
    let l = link_enum_fields();
    let tb = target_bound_fields();
    assert(l[0] == 0x9eb56094 && l[1] == 0xed59430c && l[2] == 0x8a471883 && l[3] == 0xf4deaf65);
    assert(tb.len() == 5);
    assert(tb[4] == 0xe40fc0cdu32);
    assert(forall|i: int| 0 <= i < 4 ==> tb[i] == l[i]);
    if l.contains(h) {
        let i = choose|i: int| 0 <= i < l.len() && l[i] == h;
        assert(link_derived(h));
    }
    if link_derived(h) {
        if h == 0x9eb56094 { assert(l[0] == h); assert(tb[0] == h); }
        else if h == 0xed59430c { assert(l[1] == h); assert(tb[1] == h); }
        else if h == 0x8a471883 { assert(l[2] == h); assert(tb[2] == h); }
        else { assert(l[3] == h); assert(tb[3] == h); }
    }
    if tb.contains(h) {
        let i = choose|i: int| 0 <= i < tb.len() && tb[i] == h;
        if i < 4 {
            assert(l[i] == h);
        }
    }
    if h == 0xe40fc0cd {
        assert(tb[4] == h);
    }
}

/// Copying a hunter entry writes `link << 8` (as a 32-bit enum) into exactly
/// the four link-derived fields and keeps every other field; syncing keeps the
/// target's value in those four fields and in the character GUID
/// (`0xe40fc0cd`), and takes every other field the source has from the source.
pub proof fn law_link_derived_fields(c: ClassV, link: u32, src: Seq<(u32, Value)>)
    ensures
        forall|j: int|
            0 <= j < c.fields.len() && link_derived(c.fields[j].0) ==> #[trigger] linked_entry(c, link).fields[j] == (
                c.fields[j].0,
                Value::Enum(EnumValue::E4((link << 8u32) as i32)),
            ),
        forall|j: int|
            0 <= j < c.fields.len() && !link_derived(c.fields[j].0) ==> #[trigger] linked_entry(c, link).fields[j]
                == c.fields[j],
        forall|j: int|
            0 <= j < c.fields.len() && (link_derived(c.fields[j].0) || c.fields[j].0 == 0xe40fc0cd)
                ==> #[trigger] merged_entry(c, src).fields[j] == c.fields[j],
        forall|j: int|
            0 <= j < c.fields.len() && !(link_derived(c.fields[j].0) || c.fields[j].0 == 0xe40fc0cd) && first_key(
                src,
                c.fields[j].0,
            ) >= 0 ==> #[trigger] merged_entry(c, src).fields[j] == (c.fields[j].0, src[first_key(src, c.fields[j].0)].1),
{
    assert forall|j: int| 0 <= j < c.fields.len() implies #[trigger] linked_entry(c, link).fields[j] == (if link_derived(
        c.fields[j].0,
    ) {
        (c.fields[j].0, Value::Enum(EnumValue::E4((link << 8u32) as i32)))
    } else {
        c.fields[j]
    }) by {
        lemma_link_derived(c.fields[j].0);
    }
    assert forall|j: int| 0 <= j < c.fields.len() implies #[trigger] merged_entry(c, src).fields[j] == (if !(link_derived(
        c.fields[j].0,
    ) || c.fields[j].0 == 0xe40fc0cd) && first_key(src, c.fields[j].0) >= 0 {
        (c.fields[j].0, src[first_key(src, c.fields[j].0)].1)
    } else {
        c.fields[j]
    }) by {
        lemma_link_derived(c.fields[j].0);
    }
}

/// A talisman counts as skilled exactly when its level list is an array
/// with some level strictly above zero.
pub proof fn law_skilled_means_positive_level(l: Option<Option<Seq<Option<i64>>>>)
    ensures
        has_level(l) <==> (l is Some && l->0 is Some && exists|k: int|
            0 <= k < l->0->0.len() && #[trigger] l->0->0[k] is Some && l->0->0[k]->0 > 0),
{
    if l is Some && l->0 is Some {
        let s = l->0->0;
        if has_level(l) {
            let k = choose|k: int| 0 <= k < s.len() && #[trigger] crate::extract::positive(s[k]);
            assert(s[k] is Some && s[k]->0 > 0);
        }
        if exists|k: int| 0 <= k < s.len() && #[trigger] s[k] is Some && s[k]->0 > 0 {
            let k = choose|k: int| 0 <= k < s.len() && #[trigger] s[k] is Some && s[k]->0 > 0;
            assert(crate::extract::positive(s[k]));
        }
    }
}

proof fn lemma_first_key_kept<X>(t: Seq<(u32, X)>, h: u32, k: int, x: X)
    requires
        is_first_key(t, h, k),
    ensures
        first_key(t.update(k, (h, x)), h) == k,
{
    let t2 = t.update(k, (h, x));
    assert forall|j: int| 0 <= j < k implies #[trigger] t2[j].0 != h by {
        assert(t2[j] == t[j]);
    }
    assert(is_first_key(t2, h, k));
    lemma_first_key(t2, h, k);
}

/// Clearing a hunter entry copies the chosen empty entry of the source: entry
/// `sw_slot` when it is given (non-zero), entry 1 otherwise. Where the copy
/// goes through, the target's hunter array holds at `pc_slot` exactly that
/// source entry.
pub proof fn law_clear_copies_chosen_entry(pc: Seq<(u32, ClassV)>, sw: Seq<(u32, ClassV)>, sw_slot: usize, pc_slot: int)
    ensures
        entry_carried(pc, sw, empty_entry_index(sw_slot) as int, pc_slot, false) matches Ok(t2) ==> {
            &&& hunter_array(t2) is Some
            &&& class_elem(hunter_array(t2)->0, pc_slot) == class_elem(
                hunter_array(sw)->0,
                if sw_slot > 0 {
                    sw_slot as int
                } else {
                    1
                },
            )
        },
{
    let src_idx: int = if sw_slot > 0 {
        sw_slot as int
    } else {
        1
    };
    assert(empty_entry_index(sw_slot) as int == src_idx);
    if entry_carried(pc, sw, src_idx, pc_slot, false) is Ok {
        let lk = crate::schema::LOADINFO_KEY;
        let ha = crate::schema::HUNTER_ARRAY_FIELD;
        let pk = first_key(pc, lk);
        lemma_first_key_range(pc, lk);
        let se = class_elem(hunter_array(sw)->0, src_idx)->0;
        let f = |v: Value| crate::edit::set_elem(v, pc_slot, Value::Class(se));
        let c = pc[pk].1;
        let kk = first_key(c.fields, ha);
        lemma_first_key_range(c.fields, ha);
        assert(kk >= 0);
        let old_v = c.fields[kk].1;
        let c2 = crate::edit::first_mapped(c, ha, f);
        assert(c2.fields == c.fields.update(kk, (ha, f(old_v))));
        lemma_first_key_kept(c.fields, ha, kk, f(old_v));
        let t2 = pc.update(pk, (pc[pk].0, c2));
        assert(pc[pk].0 == lk);
        lemma_first_key_kept(pc, lk, pk, c2);
        assert(entry_carried(pc, sw, src_idx, pc_slot, false) == Ok::<Seq<(u32, ClassV)>, crate::records::EntryCopyError>(t2));
        assert(hunter_array(t2) == Some(f(old_v)));
        assert(class_elem(f(old_v), pc_slot) == Some(se));
    }
}

/// A `VAL` assignment to a boolean reads exactly `true` and `false`; a
/// `VAL` assignment to an enum of any width reads the decimal text of an
/// `i32`, cut to the enum's width.
pub proof fn law_val_reads_bool_and_enum(old: Value, t: Seq<char>, n: int, fl: FloatText)
    ensures
        old is Boolean ==> scalar_from_text(old, t, fl) == (if t == seq!['t', 'r', 'u', 'e'] {
            Some(Value::Boolean(true))
        } else if t == seq!['f', 'a', 'l', 's', 'e'] {
            Some(Value::Boolean(false))
        } else {
            None
        }),
        old is Enum && -0x8000_0000 <= n <= 0x7fff_ffff ==> scalar_from_text(old, decimal(n), fl) == Some(
            Value::Enum(
                match old->Enum_0 {
                    EnumValue::E1(_) => EnumValue::E1(n as i8),
                    EnumValue::E2(_) => EnumValue::E2(n as i16),
                    EnumValue::E4(_) => EnumValue::E4(n as i32),
                    EnumValue::E8(_) => EnumValue::E8(n as i64),
                },
            ),
        ),
        old is Enum && (n < -0x8000_0000 || n > 0x7fff_ffff) ==> scalar_from_text(old, decimal(n), fl) is None,
{
    if old is Enum {
        if -0x8000_0000 <= n <= 0x7fff_ffff {
            lemma_decimal_reads_back(n, true, -0x8000_0000, 0x7fff_ffff);
        } else {
            lemma_decimal_reads_back(n, true, n, n);
        }
    }
}

proof fn lemma_carried_entry(pc: Seq<(u32, ClassV)>, sw: Seq<(u32, ClassV)>, s_idx: int, p_idx: int, keep: bool)
    requires
        entry_carried(pc, sw, s_idx, p_idx, keep) is Ok,
    ensures
        ({
            let t2 = entry_carried(pc, sw, s_idx, p_idx, keep)->Ok_0;
            let se = class_elem(hunter_array(sw)->0, s_idx)->0;
            &&& hunter_array(t2) is Some
            &&& class_elem(hunter_array(t2)->0, p_idx) == Some(
                if keep {
                    with_use_index(se, kept_use_index(hunter_array(pc)->0, p_idx))
                } else {
                    se
                },
            )
        }),
{
    let lk = crate::schema::LOADINFO_KEY;
    let ha = crate::schema::HUNTER_ARRAY_FIELD;
    let pk = first_key(pc, lk);
    lemma_first_key_range(pc, lk);
    let se = class_elem(hunter_array(sw)->0, s_idx)->0;
    let entry = if keep {
        with_use_index(se, kept_use_index(hunter_array(pc)->0, p_idx))
    } else {
        se
    };
    let f = |v: Value| crate::edit::set_elem(v, p_idx, Value::Class(entry));
    let c = pc[pk].1;
    let kk = first_key(c.fields, ha);
    lemma_first_key_range(c.fields, ha);
    let old_v = c.fields[kk].1;
    let c2 = crate::edit::first_mapped(c, ha, f);
    assert(c2.fields == c.fields.update(kk, (ha, f(old_v))));
    lemma_first_key_kept(c.fields, ha, kk, f(old_v));
    let t2 = pc.update(pk, (pc[pk].0, c2));
    lemma_first_key_kept(pc, lk, pk, c2);
    assert(entry_carried(pc, sw, s_idx, p_idx, keep) == Ok::<Seq<(u32, ClassV)>, crate::records::EntryCopyError>(t2));
    assert(hunter_array(t2) == Some(f(old_v)));
}

/// Patching a hunter entry copies the source entry over the target entry
/// but keeps the target's `_UseIndex` (`0x26d05f4a`): the new entry has the
/// source entry's fields, except that its first `_UseIndex`, where it and the
/// target's former one both hold an `i32`, holds the target's former value.
pub proof fn law_patch_keeps_use_index(pc: Seq<(u32, ClassV)>, sw: Seq<(u32, ClassV)>, s_idx: int, p_idx: int)
    requires
        entry_carried(pc, sw, s_idx, p_idx, true) is Ok,
    ensures
        ({
            let t2 = entry_carried(pc, sw, s_idx, p_idx, true)->Ok_0;
            let se = class_elem(hunter_array(sw)->0, s_idx)->0;
            let old_e = class_elem(hunter_array(pc)->0, p_idx)->0;
            let ne = class_elem(hunter_array(t2)->0, p_idx)->0;
            let u = first_key(se.fields, 0x26d05f4a);
            &&& class_elem(hunter_array(t2)->0, p_idx) is Some
            &&& ne.hash == se.hash
            &&& ne.fields.len() == se.fields.len()
            &&& forall|j: int| 0 <= j < se.fields.len() && j != u ==> #[trigger] ne.fields[j] == se.fields[j]
            &&& (u >= 0 ==> ne.fields[u].0 == 0x26d05f4a)
            &&& (first_field(old_e.fields, 0x26d05f4a) matches Some(Value::S32(x)) ==> (u >= 0 && se.fields[u].1 is S32
                ==> ne.fields[u].1 == Value::S32(x)))
            &&& (u >= 0 && !(se.fields[u].1 is S32 && (first_field(old_e.fields, 0x26d05f4a) matches Some(Value::S32(_))))
                ==> ne.fields[u] == se.fields[u])
        }),
{
    lemma_carried_entry(pc, sw, s_idx, p_idx, true);
    let se = class_elem(hunter_array(sw)->0, s_idx)->0;
    lemma_first_key_range(se.fields, 0x26d05f4a);
}

} // verus!
