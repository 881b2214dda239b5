use mhrise_save_migrate::plaintext::trim_trailing_nuls;
use mhrise_save_migrate::ieee::{f32_to_u32, f64_to_i64, f64_to_u64};
use mhrise_save_migrate::model::{Array, Class, EnumValue, Field, FieldType, FieldValue, SaveTree};
use mhrise_save_migrate::report::{edit_report, field_dump, SlotArray, ValueKind};
use mhrise_save_migrate::schema::{SLOT_NAME_FIELD, SLOT_USED_FIELD, UI_VALUE_FIELD};
use mhrise_save_migrate::sig::{class_sigs, content_sig, fold_fv, SIG_BASIS};

fn f32_samples() -> Vec<f32> {
    vec![
        0.0, -0.0, 0.5, 0.999, 1.0, 1.5, 2.75, 1e-40, 123456.79, 4294967040.0, 4294967296.0, 1e20, -1.0, -1e20,
        f32::INFINITY, f32::NEG_INFINITY, f32::NAN, f32::MAX, f32::MIN_POSITIVE,
    ]
}

fn f64_samples() -> Vec<f64> {
    vec![
        0.0, -0.0, 0.25, 1.0, -1.0, -1.5, 3.99, 1e-310, 9007199254740993.0, 9.2e18, 9.3e18, 1.8e19, 1.9e19, -9.2e18,
        -9.3e18, 1e300, -1e300, f64::INFINITY, f64::NEG_INFINITY, f64::NAN, -f64::NAN, f64::MIN_POSITIVE,
    ]
}

#[test]
fn float_casts_from_bits_match_rust() {
    for x in f32_samples() {
        assert_eq!(f32_to_u32(x.to_bits()), x as u32, "f32 {x}");
    }
    for x in f64_samples() {
        assert_eq!(f64_to_u64(x.to_bits()), x as u64, "f64 {x} as u64");
        assert_eq!(f64_to_i64(x.to_bits()), x as i64, "f64 {x} as i64");
    }
}

fn mix(h: u64, x: u64) -> u64 {
    h.wrapping_mul(31).wrapping_add(x)
}

#[test]
fn fold_of_scalars_and_containers() {
    assert_eq!(fold_fv(5, &FieldValue::U32(7)), mix(5, 7));
    assert_eq!(fold_fv(5, &FieldValue::S8(-1)), mix(5, u64::MAX));
    assert_eq!(fold_fv(5, &FieldValue::Enum(EnumValue::E4(99))), mix(5, 99));
    assert_eq!(fold_fv(5, &FieldValue::Enum(EnumValue::E1(-1))), mix(5, u64::MAX));
    assert_ne!(fold_fv(5, &FieldValue::Enum(EnumValue::E4(0))), fold_fv(5, &FieldValue::Enum(EnumValue::E4(1))));
    assert_eq!(fold_fv(5, &FieldValue::Boolean(true)), mix(5, 1));
    assert_eq!(fold_fv(5, &FieldValue::Unknown), mix(5, 0x99));
    assert_eq!(fold_fv(5, &FieldValue::F32(2.5f32.to_bits())), mix(5, 2));
    let x = -3.7f64;
    assert_eq!(fold_fv(5, &FieldValue::F64(x.to_bits())), mix(5, (x as u64).wrapping_add((x as i64) as u64)));
    assert_eq!(fold_fv(5, &FieldValue::String(vec![1, 2])), mix(mix(mix(5, 0x5e), 1), 2));
    assert_eq!(fold_fv(5, &FieldValue::Struct(vec![3])), mix(mix(5, 0x5f), 3));
    let a = FieldValue::Array(Array { member_type: FieldType::U8, values: vec![FieldValue::U8(1), FieldValue::U8(2)] });
    assert_eq!(fold_fv(5, &a), mix(mix(mix(5, 0xa1), 1), 2));
    let c = FieldValue::Class(Box::new(Class { hash: 9, fields: vec![Field { hash: 4, value: FieldValue::U16(6) }] }));
    assert_eq!(fold_fv(5, &c), mix(mix(mix(5, 9), 4), 6));
}

fn tree() -> SaveTree {
    SaveTree {
        fields: vec![
            (0x10, Class { hash: 0xaa, fields: vec![Field { hash: 1, value: FieldValue::U32(2) }] }),
            (0x20, Class { hash: 0xbb, fields: vec![] }),
        ],
    }
}

#[test]
fn signatures_of_a_save() {
    let t = tree();
    let expected = mix(mix(mix(mix(SIG_BASIS, 0x10), 1), 2), 0x20);
    assert_eq!(content_sig(&t), expected);
    let sigs = class_sigs(&t);
    assert_eq!(sigs, vec![(0x10, mix(mix(SIG_BASIS, 1), 2)), (0x20, SIG_BASIS)]);
    assert_eq!(format!("{:016x}", SIG_BASIS), "cbf29ce484222325");
}

fn arr(values: Vec<FieldValue>) -> FieldValue {
    FieldValue::Array(Array { member_type: FieldType::Other, values })
}

#[test]
fn edit_report_lists_slot_arrays() {
    let t = SaveTree {
        fields: vec![(
            0x77,
            Class {
                hash: 0x1,
                fields: vec![
                    Field { hash: 5, value: FieldValue::U8(0) },
                    Field {
                        hash: UI_VALUE_FIELD,
                        value: arr(vec![
                            FieldValue::Class(Box::new(Class { hash: 2, fields: vec![Field { hash: 1, value: FieldValue::U8(0) }] })),
                            FieldValue::U8(3),
                        ]),
                    },
                    Field { hash: SLOT_USED_FIELD, value: arr(vec![FieldValue::Boolean(true)]) },
                    Field { hash: SLOT_NAME_FIELD, value: FieldValue::U8(1) },
                ],
            },
        )],
    };
    let r = edit_report(&t);
    assert_eq!(r.len(), 2);
    assert_eq!(r[0].top, 0x77);
    assert_eq!(r[0].array, SlotArray::UiValue);
    assert_eq!(r[0].len, 2);
    assert_eq!(r[0].per_slot, Some(vec![Some(1), None]));
    assert_eq!(r[1].array, SlotArray::SlotUsed);
    assert_eq!(r[1].per_slot, None);
    let d = field_dump(&t);
    assert_eq!(d.len(), 1);
    assert_eq!(d[0].top, 0x77);
    let kinds: Vec<ValueKind> = d[0].fields.iter().map(|x| x.kind).collect();
    assert_eq!(kinds, vec![ValueKind::Scalar, ValueKind::Array, ValueKind::Array, ValueKind::Scalar]);
    assert_eq!(d[0].fields[1].len, Some(2));
    assert_eq!(d[0].fields[0].len, None);
    assert_eq!(d[0].fields[1].hash, UI_VALUE_FIELD);
}


#[test]
fn class_signature_depends_on_fields_only() {
    let fields = || vec![Field { hash: 1, value: FieldValue::Enum(EnumValue::E4(3)) }];
    let a = SaveTree { fields: vec![(0x10, Class { hash: 0xaa, fields: fields() })] };
    let b = SaveTree {
        fields: vec![(0x99, Class { hash: 0x1, fields: vec![] }), (0x10, Class { hash: 0xbb, fields: fields() })],
    };
    assert_eq!(class_sigs(&a)[0].1, class_sigs(&b)[1].1);
    let c = SaveTree {
        fields: vec![(0x10, Class { hash: 0xaa, fields: vec![Field { hash: 1, value: FieldValue::Enum(EnumValue::E4(4)) }] })],
    };
    assert_ne!(class_sigs(&a)[0].1, class_sigs(&c)[0].1);
    assert_ne!(content_sig(&a), content_sig(&c));
}

#[test]
fn trailing_nuls_are_trimmed() {
    assert_eq!(trim_trailing_nuls(&[1, 0, 2, 0, 0]), vec![1, 0, 2]);
    assert_eq!(trim_trailing_nuls(&[0, 0]), Vec::<u8>::new());
    assert_eq!(trim_trailing_nuls(&[]), Vec::<u8>::new());
    assert_eq!(trim_trailing_nuls(&[7]), vec![7]);
}
