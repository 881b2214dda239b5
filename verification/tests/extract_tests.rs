use mhrise_save_migrate::extract::{
    extract_aug, extract_deco, extract_equip, extract_items, extract_npc, extract_talismans, ExtractError, ItemRow,
    NumList,
};
use mhrise_save_migrate::model::{Array, Class, EnumValue, Field, FieldType, FieldValue, SaveTree};
use mhrise_save_migrate::murmur::name_hash;

fn named(name: &str, value: FieldValue) -> Field {
    Field { hash: name_hash(name), value }
}

fn cls(fields: Vec<Field>) -> FieldValue {
    FieldValue::Class(Box::new(Class { hash: 0x1, fields }))
}

fn arr(values: Vec<FieldValue>) -> FieldValue {
    FieldValue::Array(Array { member_type: FieldType::Other, values })
}

fn e4(x: i32) -> FieldValue {
    FieldValue::Enum(EnumValue::E4(x))
}

fn item(id: i32, num: i32) -> FieldValue {
    cls(vec![named("_ItemCount", cls(vec![named("_Id", e4(id)), named("_Num", FieldValue::S32(num))]))])
}

fn equip_entry(idtype: i32, idval: u32, extra: Vec<Field>) -> FieldValue {
    let mut fields = vec![named("_IdType", e4(idtype)), named("_IdVal", FieldValue::U32(idval))];
    fields.extend(extra);
    cls(fields)
}

fn slot() -> SaveTree {
    let item_box = Class { hash: 2, fields: vec![named("_InventoryList", arr(vec![item(5, 10), FieldValue::U8(0), item(6, 1)]))] };
    let pouch = Class { hash: 3, fields: vec![named("_NormalInventoryList", arr(vec![cls(vec![])]))] };
    let talisman = equip_entry(
        3,
        1,
        vec![
            named("_TalismanSkillLvList", arr(vec![FieldValue::U32(0), FieldValue::U32(2)])),
            named("_TalismanSkillIdList", arr(vec![e4(40), FieldValue::U32(9)])),
            named("_TalismanDecoSlotNumList", FieldValue::U8(0)),
            named("_DecoIdList", arr(vec![e4(7), e4(8)])),
            named("_CustomCount", FieldValue::S32(0)),
            named("_CustomBuildupType", FieldValue::S8(-2)),
            named(
                "_CustomBuildup",
                arr(vec![
                    cls(vec![named("_Id", e4(0)), named("_ValueIndex", FieldValue::U32(0)), named("_SkillId", e4(0))]),
                    cls(vec![named("_Id", e4(1)), named("_ValueIndex", FieldValue::U32(2)), named("_SkillId", e4(3))]),
                ]),
            ),
            named("_CustomOpenIdArray", arr(vec![FieldValue::U32(4), e4(5), FieldValue::U8(6)])),
        ],
    );
    let plain = equip_entry(1, 0, vec![named("_CustomEnable", FieldValue::Boolean(true))]);
    let weapon = equip_entry(2, 77, vec![named("_CustomEnable", FieldValue::Boolean(false))]);
    let equip_box = Class { hash: 4, fields: vec![named("_WeaponArmorInventoryList", arr(vec![talisman, plain, weapon]))] };
    let data1 = Class {
        hash: 5,
        fields: vec![
            named("_ItemBox", FieldValue::Class(Box::new(item_box))),
            named("_ItemPouch", FieldValue::Class(Box::new(pouch))),
            named("_EquipBox", FieldValue::Class(Box::new(equip_box))),
        ],
    };
    let dm = Class { hash: 6, fields: vec![named("_Data1", FieldValue::Class(Box::new(data1)))] };
    let npc = Class { hash: 7, fields: vec![named("_NpcGuideChatUnlockFlag", arr(vec![FieldValue::U32(1), e4(-2), FieldValue::S8(0)]))] };
    SaveTree { fields: vec![(0xe825_861b, dm), (0x1e32_797d, npc)] }
}

#[test]
fn items_from_box_then_pouch() {
    let rows = extract_items(&slot()).unwrap();
    assert_eq!(
        rows,
        vec![
            ItemRow { pouch: false, index: 0, id: 5, num: 10 },
            ItemRow { pouch: false, index: 2, id: 6, num: 1 },
            ItemRow { pouch: true, index: 0, id: -1, num: -1 },
        ]
    );
    assert_eq!(extract_items(&SaveTree { fields: vec![] }), Err(ExtractError::DataManagerMissing));
}

#[test]
fn equipment_rows_and_filled_count() {
    let l = extract_equip(&slot()).unwrap();
    assert_eq!(l.total, 3);
    assert_eq!(l.rows.len(), 3);
    assert_eq!((l.rows[0].index, l.rows[0].id_type, l.rows[0].id_val), (0, 3, 1));
    assert_eq!(l.filled, 2);
    let no_box = SaveTree { fields: vec![(0xe825_861b, Class { hash: 6, fields: vec![] })] };
    assert!(matches!(extract_equip(&no_box), Err(ExtractError::EquipBoxNotArray)));
}

#[test]
fn talisman_lists() {
    let l = extract_talismans(&slot()).unwrap();
    assert_eq!(l.rows.len(), 3);
    assert_eq!(l.skilled, 1);
    match &l.rows[0].skill_lvs {
        NumList::Items(v) => assert_eq!(v, &vec![Some(0), Some(2)]),
        _ => panic!(),
    }
    match &l.rows[0].skill_ids {
        NumList::Items(v) => assert_eq!(v, &vec![Some(40), None]),
        _ => panic!(),
    }
    assert!(matches!(l.rows[0].deco_slots, NumList::NotArray));
    assert!(matches!(l.rows[1].skill_lvs, NumList::Absent));
}

#[test]
fn decorations_of_filled_entries() {
    let rows = extract_deco(&slot()).unwrap();
    assert_eq!(rows.len(), 2);
    assert_eq!(rows[0].index, 0);
    assert_eq!(rows[0].hyakuryu, -1);
    match &rows[0].decos {
        NumList::Items(v) => assert_eq!(v, &vec![Some(7), Some(8)]),
        _ => panic!(),
    }
    assert_eq!(rows[1].index, 2);
    assert!(matches!(rows[1].decos, NumList::Absent));
}

#[test]
fn augments_of_filled_augmented_entries() {
    let rows = extract_aug(&slot()).unwrap();
    // entry 1 is enabled but not filled; entry 2 is filled but not augmented
    assert_eq!(rows.len(), 1);
    let r = &rows[0];
    assert_eq!(r.index, 0);
    assert!(!r.enabled);
    assert_eq!(r.count, 0);
    assert_eq!(r.buildup_type, -2);
    assert_eq!(r.buildup, vec![(0, 0, 0), (1, 2, 3)]);
    match &r.open_ids {
        NumList::Items(v) => assert_eq!(v, &vec![Some(4), Some(5), None]),
        _ => panic!(),
    }
}

#[test]
fn npc_flags() {
    assert_eq!(extract_npc(&slot()), Some(vec![Some(1), Some(-2), None]));
    assert_eq!(extract_npc(&SaveTree { fields: vec![] }), None);
}

#[test]
fn item_listing_refuses_missing_lists() {
    let no_box = SaveTree { fields: vec![(0xe825_861b, Class { hash: 6, fields: vec![] })] };
    assert_eq!(extract_items(&no_box), Err(ExtractError::ItemBoxNotArray));
    let item_box = Class { hash: 2, fields: vec![named("_InventoryList", arr(vec![]))] };
    let data1 = Class { hash: 5, fields: vec![named("_ItemBox", FieldValue::Class(Box::new(item_box)))] };
    let dm = Class { hash: 6, fields: vec![named("_Data1", FieldValue::Class(Box::new(data1)))] };
    let no_pouch = SaveTree { fields: vec![(0xe825_861b, dm)] };
    assert_eq!(extract_items(&no_pouch), Err(ExtractError::ItemPouchNotArray));
}
