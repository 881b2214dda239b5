use mhrise_save_migrate::hunter::{copy_hunter_entry, sync_hunter_entry};
use mhrise_save_migrate::migrate::{migrate, migrate_acct, migrate_all_classes, migrate_x, slice_classes};
use mhrise_save_migrate::model::{Array, Class, EnumValue, Field, FieldType, FieldValue, SaveTree};
use mhrise_save_migrate::records::{
    clear_ids, clear_sys_entry, patch_sys_entry, set_village, sync_sizes, EntryCopyError, SizeFieldOutcome,
    SizeSyncError,
};
use mhrise_save_migrate::schema::{
    CHAR_GUID_FIELD, EDIT_SAVE_CLS, ENEMY_SIZE_MAX_FIELD, ENEMY_SIZE_MIN_FIELD, HR_FIELD, HUNTER_ARRAY_FIELD,
    HUNTER_NAME_FIELD, HUNTER_RECORD_KEY, HUNTER_UNIQUE_ID_FIELD, LOADINFO_CLS, LOADINFO_KEY, MR_FIELD,
    NETWORK_ID_BYTES_FIELD, NETWORK_ID_FIELD, NSA_ID_FIELD, PROGRESS_CLS, SLOT_NAME_FIELD, SLOT_TIME_FIELD,
    SLOT_USED_FIELD, UI_VALUE_FIELD, USE_INDEX_FIELD, VILLAGE_FIELD,
};
use mhrise_save_migrate::sig::class_sigs;
use mhrise_save_migrate::slot::slot_rank;
use mhrise_save_migrate::sys::{
    hunter_names, set_both_names, set_hunter_name, set_slot_used, slot_names, slot_times, slot_used_flags,
    SysEditError,
};
use mhrise_save_migrate::sysmigrate::migrate_sys;

fn f(hash: u32, value: FieldValue) -> Field {
    Field { hash, value }
}

fn class(hash: u32, fields: Vec<Field>) -> Class {
    Class { hash, fields }
}

fn arr(member_type: FieldType, values: Vec<FieldValue>) -> FieldValue {
    FieldValue::Array(Array { member_type, values })
}

fn s(text: &str) -> FieldValue {
    FieldValue::String(text.encode_utf16().collect())
}

fn units(text: &str) -> Vec<u16> {
    text.encode_utf16().collect()
}

fn sub(c: Class) -> FieldValue {
    FieldValue::Class(Box::new(c))
}

fn bools(v: &[bool]) -> FieldValue {
    arr(FieldType::Boolean, v.iter().map(|b| FieldValue::Boolean(*b)).collect())
}

fn edit_tree_sample() -> SaveTree {
    SaveTree {
        fields: vec![
            (0x1111, class(0xabcd, vec![f(0x1, FieldValue::U32(1))])),
            (
                0x2222,
                class(
                    EDIT_SAVE_CLS,
                    vec![
                        f(SLOT_USED_FIELD, bools(&[false, false, false])),
                        f(SLOT_NAME_FIELD, arr(FieldType::Other, vec![s("one"), s("two"), FieldValue::U8(0)])),
                        f(SLOT_TIME_FIELD, arr(FieldType::Other, vec![s("t0"), s("t1"), s("t2")])),
                        f(UI_VALUE_FIELD, arr(FieldType::Other, vec![sub(class(7, vec![])), FieldValue::U8(1)])),
                    ],
                ),
            ),
            (
                LOADINFO_KEY,
                class(
                    LOADINFO_CLS,
                    vec![f(
                        HUNTER_ARRAY_FIELD,
                        arr(
                            FieldType::Other,
                            vec![
                                sub(entry("Alpha", 10, 0)),
                                sub(entry("Beta", 11, 1)),
                                sub(entry("Gamma", 12, 2)),
                            ],
                        ),
                    )],
                ),
            ),
        ],
    }
}

fn entry(name: &str, guid: u8, use_index: i32) -> Class {
    class(
        0x5151,
        vec![
            f(HUNTER_NAME_FIELD, s(name)),
            f(HR_FIELD, FieldValue::U32(guid as u32 * 10)),
            f(CHAR_GUID_FIELD, FieldValue::Struct(vec![guid; 16])),
            f(VILLAGE_FIELD, FieldValue::Enum(EnumValue::E4(7))),
            f(USE_INDEX_FIELD, FieldValue::S32(use_index)),
        ],
    )
}

fn entry_of(t: &SaveTree, idx: usize) -> &Class {
    let li = &t.fields.iter().find(|(h, _)| *h == LOADINFO_KEY).unwrap().1;
    match &li.fields[0].value {
        FieldValue::Array(a) => match &a.values[idx] {
            FieldValue::Class(c) => c,
            _ => panic!("not a class"),
        },
        _ => panic!("not an array"),
    }
}

fn field_of(c: &Class, h: u32) -> &FieldValue {
    &c.fields.iter().find(|x| x.hash == h).unwrap().value
}

#[test]
fn slot_used_flags_read_back_after_set() {
    let mut t = edit_tree_sample();
    let before = slot_used_flags(&t);
    assert_eq!(before.class_hash, Some(EDIT_SAVE_CLS));
    assert_eq!(before.values, vec![Some(false), Some(false), Some(false)]);
    assert_eq!(set_slot_used(&mut t, 1, true), Ok(()));
    let after = slot_used_flags(&t);
    assert_eq!(after.values, vec![Some(false), Some(true), Some(false)]);
    assert_eq!(set_slot_used(&mut t, 3, true), Err(SysEditError::NoSlotUsed));
    assert_eq!(slot_used_flags(&t).values, vec![Some(false), Some(true), Some(false)]);
}

#[test]
fn slot_names_and_times_are_read_in_order() {
    let t = edit_tree_sample();
    assert_eq!(slot_names(&t), vec![Some(units("one")), Some(units("two")), None]);
    assert_eq!(slot_times(&t), vec![Some(units("t0")), Some(units("t1")), Some(units("t2"))]);
}

#[test]
fn hunter_name_read_back_after_rename() {
    let mut t = edit_tree_sample();
    assert_eq!(hunter_names(&t), vec![Some(units("Alpha")), Some(units("Beta")), Some(units("Gamma"))]);
    assert_eq!(set_hunter_name(&mut t, 1, "Ayu"), Ok(()));
    assert_eq!(hunter_names(&t), vec![Some(units("Alpha")), Some(units("Ayu")), Some(units("Gamma"))]);
    assert_eq!(set_hunter_name(&mut t, 9, "x"), Err(SysEditError::NoHunterNameSlot));
}

#[test]
fn set_both_names_renames_entry_and_slot() {
    let mut t = edit_tree_sample();
    let before = slot_names(&t);
    assert_eq!(set_both_names(&mut t, 0, "Zed"), Ok(()));
    assert_eq!(hunter_names(&t)[0], Some(units("Zed")));
    let after = slot_names(&t);
    assert_eq!(after.len(), before.len());
    assert_eq!(after, vec![Some(units("Zed")), Some(units("two")), None]);
    // index 2: the hunter entry has a name, the slot-name element is not a string
    assert_eq!(set_both_names(&mut t, 2, "Q"), Ok(()));
    assert_eq!(hunter_names(&t)[2], Some(units("Q")));
    assert_eq!(slot_names(&t)[2], None);
    assert_eq!(set_both_names(&mut t, 5, "Q"), Err(SysEditError::NoNameSlots));
}

fn slot_tree(tag: u32) -> SaveTree {
    SaveTree {
        fields: vec![
            (0xd6f4_726d, class(0x10, vec![f(1, FieldValue::U32(tag))])),
            (0x1f61_3294, class(0x11, vec![f(1, FieldValue::U32(tag + 1))])),
            (HUNTER_RECORD_KEY, class(0x12, vec![f(1, FieldValue::U32(tag + 2))])),
            (0x164d_2e71, class(PROGRESS_CLS, vec![f(HR_FIELD, FieldValue::S32(tag as i32)), f(MR_FIELD, FieldValue::S32(5))])),
        ],
    }
}

fn u32_at(t: &SaveTree, key: u32) -> u32 {
    let c = &t.fields.iter().find(|(h, _)| *h == key).unwrap().1;
    match c.fields[0].value {
        FieldValue::U32(x) => x,
        _ => panic!("not u32"),
    }
}

#[test]
fn migrate_copies_listed_classes_only() {
    let sw = slot_tree(100);
    let mut pc = slot_tree(200);
    let copied = migrate(&sw, &mut pc);
    assert_eq!(copied, 3);
    assert_eq!(u32_at(&pc, 0xd6f4_726d), 100);
    // the DLC class is not migrated
    assert_eq!(u32_at(&pc, 0x1f61_3294), 201);
    assert_eq!(u32_at(&pc, HUNTER_RECORD_KEY), 102);
    assert_eq!(slot_rank(&pc).hr, Some(100));
}

#[test]
fn migrated_classes_carry_the_source_signature() {
    let sw = slot_tree(100);
    let mut pc = slot_tree(200);
    migrate_x(&sw, &mut pc);
    let a = class_sigs(&sw);
    let b = class_sigs(&pc);
    assert_eq!(a[0], b[0]);
    assert_ne!(a[1], b[1]);
    assert_eq!(a[2], b[2]);
    assert_eq!(a[3], b[3]);
}

#[test]
fn migrate_acct_keeps_the_hunter_record() {
    let sw = slot_tree(100);
    let mut pc = slot_tree(200);
    let copied = migrate_acct(&sw, &mut pc);
    assert_eq!(copied, 2);
    assert_eq!(u32_at(&pc, HUNTER_RECORD_KEY), 202);
    assert_eq!(u32_at(&pc, 0xd6f4_726d), 100);
}

#[test]
fn migrate_all_classes_counts_missing() {
    let sw = slot_tree(100);
    let mut pc = slot_tree(200);
    let r = migrate_all_classes(&mut pc, &sw);
    assert_eq!(r.copied, 3);
    assert_eq!(r.missing, 34 - 3);
}

#[test]
fn slice_by_hash_or_by_count() {
    let sw = slot_tree(100);
    let mut pc = slot_tree(200);
    assert_eq!(slice_classes(&mut pc, &sw, 0x1f61_3294, 0), 1);
    assert_eq!(u32_at(&pc, 0x1f61_3294), 101);
    assert_eq!(u32_at(&pc, 0xd6f4_726d), 200);
    let mut pc2 = slot_tree(200);
    assert_eq!(slice_classes(&mut pc2, &sw, 0, 2), 2);
    assert_eq!(u32_at(&pc2, 0xd6f4_726d), 100);
    assert_eq!(u32_at(&pc2, 0x1f61_3294), 101);
    assert_eq!(u32_at(&pc2, HUNTER_RECORD_KEY), 202);
    let mut pc3 = slot_tree(200);
    assert_eq!(slice_classes(&mut pc3, &sw, 0xdead_beef, 0), 0);
}

#[test]
fn slot_rank_reads_hr_and_mr() {
    let t = slot_tree(42);
    let r = slot_rank(&t);
    assert_eq!(r.hr, Some(42));
    assert_eq!(r.mr, Some(5));
    let empty = SaveTree { fields: vec![] };
    assert_eq!(slot_rank(&empty).hr, None);
}

fn size_tree(min: f32, max: f32, count: u32) -> SaveTree {
    SaveTree {
        fields: vec![(
            HUNTER_RECORD_KEY,
            class(
                0x77,
                vec![
                    f(0x1c4d_0471, FieldValue::U32(count)),
                    f(ENEMY_SIZE_MIN_FIELD, arr(FieldType::Other, vec![FieldValue::F32(min.to_bits())])),
                    f(ENEMY_SIZE_MAX_FIELD, arr(FieldType::Other, vec![FieldValue::F32(max.to_bits())])),
                ],
            ),
        )],
    }
}

#[test]
fn sync_sizes_copies_only_the_size_records() {
    let sw = size_tree(0.9, 1.2, 5);
    let mut pc = size_tree(1.0, 1.0, 77);
    let r = sync_sizes(&mut pc, &sw).unwrap();
    assert_eq!(r.min, SizeFieldOutcome::Patched);
    assert_eq!(r.max, SizeFieldOutcome::Patched);
    let c = &pc.fields[0].1;
    assert!(matches!(c.fields[0].value, FieldValue::U32(77)));
    match &c.fields[1].value {
        FieldValue::Array(a) => assert!(matches!(a.values[0], FieldValue::F32(b) if b == 0.9f32.to_bits())),
        _ => panic!(),
    }
    match &c.fields[2].value {
        FieldValue::Array(a) => assert!(matches!(a.values[0], FieldValue::F32(b) if b == 1.2f32.to_bits())),
        _ => panic!(),
    }
    let mut none = SaveTree { fields: vec![] };
    assert_eq!(sync_sizes(&mut none, &sw).unwrap_err(), SizeSyncError::TargetRecordMissing);
    let mut pc2 = size_tree(1.0, 1.0, 77);
    assert_eq!(sync_sizes(&mut pc2, &SaveTree { fields: vec![] }).unwrap_err(), SizeSyncError::SourceRecordMissing);
}

#[test]
fn copy_hunter_entry_sets_link_enums_from_target() {
    let s = edit_tree_sample();
    let mut t = edit_tree_sample();
    let mut tgt_sys = vec![0u8; 32];
    tgt_sys[0x0C..0x10].copy_from_slice(&3u32.to_le_bytes());
    assert_eq!(copy_hunter_entry(&mut t, &s, &tgt_sys, 0, 2), Ok(()));
    let e = entry_of(&t, 0);
    assert!(matches!(field_of(e, HUNTER_NAME_FIELD), FieldValue::String(u) if *u == units("Gamma")));
    assert!(matches!(field_of(e, VILLAGE_FIELD), FieldValue::Enum(EnumValue::E4(0x300))));
    assert_eq!(copy_hunter_entry(&mut t, &s, &tgt_sys, 0, 9), Err(SysEditError::SrcEntryNotFound));
    assert_eq!(copy_hunter_entry(&mut t, &s, &tgt_sys, 9, 0), Err(SysEditError::DstEntryNotFound));
}

#[test]
fn sync_hunter_entry_keeps_target_bound_fields() {
    let s = edit_tree_sample();
    let mut t = edit_tree_sample();
    let n = sync_hunter_entry(&mut t, &s, 0, 1).unwrap();
    // name, HR, use index replaced; GUID and village kept
    assert_eq!(n, 3);
    let e = entry_of(&t, 0);
    assert!(matches!(field_of(e, HUNTER_NAME_FIELD), FieldValue::String(u) if *u == units("Beta")));
    assert!(matches!(field_of(e, HR_FIELD), FieldValue::U32(110)));
    assert!(matches!(field_of(e, CHAR_GUID_FIELD), FieldValue::Struct(g) if g[0] == 10));
    assert_eq!(sync_hunter_entry(&mut t, &s, 0, 8), Err(SysEditError::SrcEntryNotFound));
    assert_eq!(sync_hunter_entry(&mut t, &s, 8, 0), Err(SysEditError::TgtEntryNotFound));
}

#[test]
fn patch_sys_entry_keeps_use_index() {
    let sw = edit_tree_sample();
    let mut pc = edit_tree_sample();
    assert_eq!(patch_sys_entry(&mut pc, &sw, 2, 0), Ok(()));
    let e = entry_of(&pc, 0);
    assert!(matches!(field_of(e, HUNTER_NAME_FIELD), FieldValue::String(u) if *u == units("Gamma")));
    assert!(matches!(field_of(e, USE_INDEX_FIELD), FieldValue::S32(0)));
    assert_eq!(patch_sys_entry(&mut pc, &sw, 7, 0), Err(EntryCopyError::SourceEntryMissing));
    assert_eq!(patch_sys_entry(&mut pc, &sw, 0, 7), Err(EntryCopyError::TargetEntryNotClass));
    let empty = SaveTree { fields: vec![] };
    assert_eq!(patch_sys_entry(&mut pc, &empty, 0, 0), Err(EntryCopyError::SourceLoadInfoMissing));
}

#[test]
fn clear_sys_entry_copies_wholesale() {
    let sw = edit_tree_sample();
    let mut pc = edit_tree_sample();
    // sw_slot 0 means entry 1
    assert_eq!(clear_sys_entry(&mut pc, &sw, 0, 2), Ok(()));
    let e = entry_of(&pc, 2);
    assert!(matches!(field_of(e, HUNTER_NAME_FIELD), FieldValue::String(u) if *u == units("Beta")));
    assert!(matches!(field_of(e, USE_INDEX_FIELD), FieldValue::S32(1)));
}

#[test]
fn set_village_sets_the_enum() {
    let mut t = edit_tree_sample();
    assert_eq!(set_village(&mut t, 1, 2), Ok(true));
    assert!(matches!(field_of(entry_of(&t, 1), VILLAGE_FIELD), FieldValue::Enum(EnumValue::E4(2))));
    assert!(matches!(field_of(entry_of(&t, 0), VILLAGE_FIELD), FieldValue::Enum(EnumValue::E4(7))));
    assert_eq!(set_village(&mut t, 9, 2), Ok(false));
    let mut empty = SaveTree { fields: vec![] };
    assert_eq!(set_village(&mut empty, 0, 1), Err(EntryCopyError::TargetLoadInfoMissing));
}

#[test]
fn clear_ids_zeroes_identifiers() {
    let mut t = SaveTree {
        fields: vec![(
            HUNTER_RECORD_KEY,
            class(
                0x12,
                vec![
                    f(HUNTER_UNIQUE_ID_FIELD, FieldValue::Struct(vec![1, 2, 3])),
                    f(NSA_ID_FIELD, s("abc")),
                    f(
                        NETWORK_ID_FIELD,
                        sub(class(9, vec![f(NETWORK_ID_BYTES_FIELD, arr(FieldType::U8, vec![FieldValue::U8(5), FieldValue::U8(6)]))])),
                    ),
                ],
            ),
        )],
    };
    assert!(clear_ids(&mut t));
    let c = &t.fields[0].1;
    assert!(matches!(&c.fields[0].value, FieldValue::Struct(b) if *b == vec![0, 0, 0]));
    assert!(matches!(&c.fields[1].value, FieldValue::String(u) if *u == vec![0, 0, 0]));
    match &c.fields[2].value {
        FieldValue::Class(b) => match &b.fields[0].value {
            FieldValue::Array(a) => {
                assert!(matches!(a.values[0], FieldValue::U8(0)));
                assert!(matches!(a.values[1], FieldValue::U8(0)));
            }
            _ => panic!(),
        },
        _ => panic!(),
    }
    let mut empty = SaveTree { fields: vec![] };
    assert!(!clear_ids(&mut empty));
}

#[test]
fn migrate_sys_copies_listed_slots() {
    let s = edit_tree_sample();
    let mut t = edit_tree_sample();
    // make the target differ
    set_slot_used(&mut t, 0, true).unwrap();
    set_slot_used(&mut t, 2, true).unwrap();
    let n = migrate_sys(&s, &mut t, &[2]);
    assert_eq!(n, 4);
    assert_eq!(slot_used_flags(&t).values, vec![Some(true), Some(false), Some(false)]);
}

#[test]
fn entry_copy_refuses_hunter_arrays_that_are_not_arrays() {
    let broken = SaveTree {
        fields: vec![(LOADINFO_KEY, class(LOADINFO_CLS, vec![f(HUNTER_ARRAY_FIELD, FieldValue::U32(0))]))],
    };
    let good = edit_tree_sample();
    let mut pc = edit_tree_sample();
    assert_eq!(patch_sys_entry(&mut pc, &broken, 0, 0), Err(EntryCopyError::SourceHunterArrayNotArray));
    let mut pc2 = SaveTree {
        fields: vec![(LOADINFO_KEY, class(LOADINFO_CLS, vec![f(HUNTER_ARRAY_FIELD, FieldValue::U32(0))]))],
    };
    assert_eq!(patch_sys_entry(&mut pc2, &good, 0, 0), Err(EntryCopyError::TargetHunterArrayNotArray));
    let mut empty = SaveTree { fields: vec![] };
    assert_eq!(clear_sys_entry(&mut empty, &good, 0, 0), Err(EntryCopyError::TargetLoadInfoMissing));
}

#[test]
fn sync_hunter_entry_takes_fields_of_another_variant() {
    let mut s = edit_tree_sample();
    // the source's HR field holds a 32-bit signed value, the target's an unsigned one
    if let FieldValue::Array(a) = &mut s.fields[2].1.fields[0].value {
        if let FieldValue::Class(c) = &mut a.values[1] {
            c.fields[1].value = FieldValue::S32(-7);
        }
    }
    let mut t = edit_tree_sample();
    assert_eq!(sync_hunter_entry(&mut t, &s, 0, 1), Ok(3));
    let e = entry_of(&t, 0);
    assert!(matches!(field_of(e, HR_FIELD), FieldValue::S32(-7)));
    assert!(matches!(field_of(e, CHAR_GUID_FIELD), FieldValue::Struct(g) if g[0] == 10));
    assert!(matches!(field_of(e, VILLAGE_FIELD), FieldValue::Enum(EnumValue::E4(7))));
}
