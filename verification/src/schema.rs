//! Hashes of the classes and fields that the edits address. Each is the
//! MurmurHash3 of the schema name given beside it.

use vstd::prelude::*;

verus! {

/// `snow.gui.CharaMakeSaveManager.EditSaveData` (class).
pub const EDIT_SAVE_CLS: u32 = 0xc456_9a95;

/// `snow.progress.ProgressSaveData` (class).
pub const PROGRESS_CLS: u32 = 0x948b_7b9d;

/// `snow.LoadInfoData` (class).
pub const LOADINFO_CLS: u32 = 0xe6a6_9e8a;

/// `playerSlotUsed`.
pub const SLOT_USED_FIELD: u32 = 0x9f2c_a447;

/// `playerUIValue`.
pub const UI_VALUE_FIELD: u32 = 0x2ab9_3315;

/// `playerSaveSlotName`.
pub const SLOT_NAME_FIELD: u32 = 0x0b00_f68e;

/// `playerSaveTime`.
pub const SLOT_TIME_FIELD: u32 = 0x2cea_2fa1;

/// `_HunterArray`.
pub const HUNTER_ARRAY_FIELD: u32 = 0x01b0_5969;

/// `_HunterName`.
pub const HUNTER_NAME_FIELD: u32 = 0xf79f_3af6;

/// `_HunterRank`.
pub const HR_FIELD: u32 = 0x5653_c091;

/// `_MasterRank`.
pub const MR_FIELD: u32 = 0x4e42_8685;

/// `_HunterRankData`.
pub const HR_DATA_FIELD: u32 = 0x9c7f_5806;

/// `_Rank`.
pub const RANK_FIELD: u32 = 0x4656_60fd;

/// `_HR`.
pub const HR_SHORT_FIELD: u32 = 0x2bc9_e6a4;

/// `_BasicData`.
pub const BASIC_DATA_FIELD: u32 = 0xa991_a063;

/// `_Name`.
pub const NAME_FIELD: u32 = 0xbcf6_bc33;

/// `_PlayerName`.
pub const PLAYER_NAME_FIELD: u32 = 0x4a7d_5950;

/// `Name`.
pub const PLAIN_NAME_FIELD: u32 = 0x98b8_134d;

/// Top-level key of the progress data in a slot.
pub const PROGRESS_KEY: u32 = 0x164d_2e71;

/// Top-level key of the character data in a slot.
pub const CHARA_KEY: u32 = 0xb0ca_70c9;

/// Top-level key of `snow.HunterRecordManager.HunterReocrdSaveData`, which
/// carries the account-bound identifiers.
pub const HUNTER_RECORD_KEY: u32 = 0x355c_8c4f;

/// `EnemySizeMin`.
pub const ENEMY_SIZE_MIN_FIELD: u32 = 0xa23e_e890;

/// `EnemySizeMax`.
pub const ENEMY_SIZE_MAX_FIELD: u32 = 0xfac8_9643;

/// The character GUID of a hunter entry.
pub const CHAR_GUID_FIELD: u32 = 0xe40f_c0cd;

/// The top-level classes a slot migration carries over, in the order they
/// are copied.
pub open spec fn migrated_classes() -> Seq<u32> {
    seq![
        0xd6f4726du32, 0x9ccc3b1e, 0xb0ca70c9, 0xf2fb669a, 0x1e32797d, 0x355c8c4f,
        0x164d2e71, 0x51dcd6fb, 0xb9c15dcf, 0xadc075b6, 0x20d9167c, 0x93819625,
        0x8512ab74, 0x553d33b8, 0x68344f29, 0x8c6fb4c6, 0x1322883a, 0xa81238c6,
        0xaaca38e3, 0x22a8b022, 0x3da5b9de, 0xa21e01ad, 0x0386f39d, 0xe825861b,
        0x356f270b, 0xef78287f, 0xf5e018a4, 0xdc00f45c, 0xddb8e034, 0x4423bc21,
        0xcf6c5091, 0x81fcc8f4, 0xab109098, 0xd5f91c48,
    ]
}

/// The classes a slot migration carries over (see `migrated_classes`).
pub fn migrated_class_list() -> (r: Vec<u32>)
    ensures
        r@ == migrated_classes(),
{
    vec![
        0xd6f4726du32, 0x9ccc3b1e, 0xb0ca70c9, 0xf2fb669a, 0x1e32797d, 0x355c8c4f,
        0x164d2e71, 0x51dcd6fb, 0xb9c15dcf, 0xadc075b6, 0x20d9167c, 0x93819625,
        0x8512ab74, 0x553d33b8, 0x68344f29, 0x8c6fb4c6, 0x1322883a, 0xa81238c6,
        0xaaca38e3, 0x22a8b022, 0x3da5b9de, 0xa21e01ad, 0x0386f39d, 0xe825861b,
        0x356f270b, 0xef78287f, 0xf5e018a4, 0xdc00f45c, 0xddb8e034, 0x4423bc21,
        0xcf6c5091, 0x81fcc8f4, 0xab109098, 0xd5f91c48,
    ]
}

/// The four hunter-entry enums derived from the system file's link word.
pub open spec fn link_enum_fields() -> Seq<u32> {
    seq![0x9eb56094u32, 0xed59430c, 0x8a471883, 0xf4deaf65]
}

/// Whether `h` is one of the link-derived enum fields.
pub fn is_link_enum_field(h: u32) -> (r: bool)
    ensures
        r == link_enum_fields().contains(h),
{
    let r = h == 0x9eb56094 || h == 0xed59430c || h == 0x8a471883 || h == 0xf4deaf65;
    proof {
        if r {
            if h == 0x9eb56094 { assert(link_enum_fields()[0] == h); }
            else if h == 0xed59430c { assert(link_enum_fields()[1] == h); }
            else if h == 0x8a471883 { assert(link_enum_fields()[2] == h); }
            else { assert(link_enum_fields()[3] == h); }
        }
    }
    r
}

/// The hunter-entry fields that stay bound to the target system file when an
/// entry is synchronised: the link-derived enums and the character GUID.
pub open spec fn target_bound_fields() -> Seq<u32> {
    link_enum_fields().push(CHAR_GUID_FIELD)
}

/// Whether `h` is a target-bound hunter-entry field.
pub fn is_target_bound_field(h: u32) -> (r: bool)
    ensures
        r == target_bound_fields().contains(h),
{
    let e = is_link_enum_field(h);
    proof {
        assert(target_bound_fields()[4] == CHAR_GUID_FIELD);
        assert(forall|i: int| 0 <= i < 4 ==> target_bound_fields()[i] == link_enum_fields()[i]);
        if target_bound_fields().contains(h) {
            let i = choose|i: int| 0 <= i < 5 && target_bound_fields()[i] == h;
            if i < 4 { assert(link_enum_fields()[i] == h); }
        }
    }
    e || h == CHAR_GUID_FIELD
}

} // verus!

verus! {

/// Top-level key of `snow.LoadInfoData` in a system file.
pub const LOADINFO_KEY: u32 = 0x0b19_f75b;

/// `_UseIndex`.
pub const USE_INDEX_FIELD: u32 = 0x26d0_5f4a;

/// `_CurrentVillageNo`.
pub const VILLAGE_FIELD: u32 = 0x9eb5_6094;

/// `HunterUniqueID`.
pub const HUNTER_UNIQUE_ID_FIELD: u32 = 0x0a96_0102;

/// `NsaID`.
pub const NSA_ID_FIELD: u32 = 0xcce8_505f;

/// `NetworkUniqueId_Binary`.
pub const NETWORK_ID_FIELD: u32 = 0x0737_8f29;

/// The byte array inside `NetworkUniqueId_Binary`.
pub const NETWORK_ID_BYTES_FIELD: u32 = 0xef50_95c4;

/// Top-level key of `snow.data.DataManager.SaveDataParent` in a slot.
pub const DATA_MANAGER_KEY: u32 = 0xe825_861b;

/// Top-level key of the quest progress data in a slot.
pub const QUEST_KEY: u32 = 0x51dc_d6fb;

/// Top-level key of the NPC data in a slot.
pub const NPC_KEY: u32 = 0x1e32_797d;

/// `_Data1`.
pub const DATA1_FIELD: u32 = 0x3e2d_c92f;

/// `_ItemBox`.
pub const ITEM_BOX_FIELD: u32 = 0xf62d_73e2;

/// `_InventoryList`.
pub const INVENTORY_LIST_FIELD: u32 = 0x7996_e7ee;

/// `_ItemPouch`.
pub const ITEM_POUCH_FIELD: u32 = 0xd764_bbce;

/// `_NormalInventoryList`.
pub const NORMAL_INVENTORY_LIST_FIELD: u32 = 0x27e8_fcf1;

/// `_ItemCount`.
pub const ITEM_COUNT_FIELD: u32 = 0xc2b3_951c;

/// `_Id`.
pub const ID_FIELD: u32 = 0xaf48_5d0f;

/// `_Num`.
pub const NUM_FIELD: u32 = 0x8c11_a916;

/// `_EquipBox`.
pub const EQUIP_BOX_FIELD: u32 = 0x9f7a_ad2a;

/// `_WeaponArmorInventoryList`.
pub const EQUIP_LIST_FIELD: u32 = 0xa097_349e;

/// `_IdType`.
pub const ID_TYPE_FIELD: u32 = 0x7975_c5dc;

/// `_IdVal`.
pub const ID_VAL_FIELD: u32 = 0x6e86_4182;

/// `_TalismanSkillLvList`.
pub const TALISMAN_SKILL_LV_FIELD: u32 = 0xb649_07ff;

/// `_TalismanSkillIdList`.
pub const TALISMAN_SKILL_ID_FIELD: u32 = 0x14ba_2cad;

/// `_TalismanDecoSlotNumList`.
pub const TALISMAN_DECO_SLOT_FIELD: u32 = 0x213c_9b3c;

/// `_DecoIdList`.
pub const DECO_ID_LIST_FIELD: u32 = 0xf61f_103b;

/// `_HyakuryuDecoId`.
pub const HYAKURYU_DECO_FIELD: u32 = 0x0607_1fa9;

/// `_CustomEnable`.
pub const CUSTOM_ENABLE_FIELD: u32 = 0x7f38_3cda;

/// `_CustomCount`.
pub const CUSTOM_COUNT_FIELD: u32 = 0x0b8c_3c92;

/// `_CustomBuildupType`.
pub const CUSTOM_BUILDUP_TYPE_FIELD: u32 = 0xbeff_fa4a;

/// `_CustomOpenIdArray`.
pub const CUSTOM_OPEN_ID_FIELD: u32 = 0x35be_2648;

/// `_CustomBuildup`.
pub const CUSTOM_BUILDUP_FIELD: u32 = 0x8cf5_c9d8;

/// `_ValueIndex`.
pub const VALUE_INDEX_FIELD: u32 = 0xf714_d4a6;

/// `_SkillId`.
pub const SKILL_ID_FIELD: u32 = 0x9a1e_b9a8;

/// `_NpcGuideChatUnlockFlag`.
pub const NPC_CHAT_FLAG_FIELD: u32 = 0x67d2_8422;

} // verus!
