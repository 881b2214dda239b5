use mhrise_save_migrate::arraytext::{decimal_text, listing_text};
use mhrise_save_migrate::assign::{
    apply_listing, apply_ref_line, assign_value, parse_path, read_assignments, scalar_from, ApplyCount, ApplyError,
    FloatText,
};
use mhrise_save_migrate::model::{Array, Class, EnumValue, Field, FieldType, FieldValue, SaveTree};
use mhrise_save_migrate::murmur::name_hash;
use mhrise_save_migrate::strparse::{chars_of, parse_int, split_chars, trim, trim_end};

fn c(s: &str) -> Vec<char> {
    s.chars().collect()
}

fn no_float() -> FloatText {
    FloatText { as_f32: None, as_f64: None }
}

fn floats(text: &str) -> FloatText {
    FloatText { as_f32: text.parse::<f32>().ok().map(f32::to_bits), as_f64: text.parse::<f64>().ok().map(f64::to_bits) }
}

fn arr(member_type: FieldType, values: Vec<FieldValue>) -> FieldValue {
    FieldValue::Array(Array { member_type, values })
}

fn named(name: &str, value: FieldValue) -> Field {
    Field { hash: name_hash(name), value }
}

fn sample_tree() -> SaveTree {
    let flag = Class {
        hash: 0x99,
        fields: vec![
            named("_Flag", arr(FieldType::U32, vec![FieldValue::U32(1), FieldValue::U32(2)])),
            named("_Count", FieldValue::S32(-4)),
        ],
    };
    let data = Class {
        hash: 0x42,
        fields: vec![
            named("_Level", FieldValue::U8(3)),
            named("_Big", FieldValue::U64(9)),
            named("_Kind", FieldValue::Enum(EnumValue::E1(0))),
            named("_On", FieldValue::Boolean(false)),
            named("_Ratio", FieldValue::F32(1.0f32.to_bits())),
            named("_Tables", arr(FieldType::Other, vec![FieldValue::Class(Box::new(flag))])),
            named("_Empty", arr(FieldType::S16, vec![])),
            named("_Opaque", arr(FieldType::Other, vec![])),
            named("_Name", FieldValue::String(vec![65])),
        ],
    };
    SaveTree { fields: vec![(0x1000, Class { hash: 0x1, fields: vec![] }), (0x2000, data)] }
}

fn top(t: &SaveTree) -> &Class {
    &t.fields[1].1
}

fn value<'a>(cl: &'a Class, name: &str) -> &'a FieldValue {
    let h = name_hash(name);
    &cl.fields.iter().find(|f| f.hash == h).unwrap().value
}

#[test]
fn integer_syntax_is_rusts() {
    assert_eq!(parse_int(&c("42"), false, 0, 255), Some(42));
    assert_eq!(parse_int(&c("+42"), false, 0, 255), Some(42));
    assert_eq!(parse_int(&c("-1"), false, 0, 255), None);
    assert_eq!(parse_int(&c("256"), false, 0, 255), None);
    assert_eq!(parse_int(&c("-128"), true, -128, 127), Some(-128));
    assert_eq!(parse_int(&c(" 1"), true, -128, 127), None);
    assert_eq!(parse_int(&c(""), true, -128, 127), None);
    assert_eq!(parse_int(&c("-"), true, -128, 127), None);
    assert_eq!(parse_int(&c("18446744073709551615"), false, 0, 0xffff_ffff_ffff_ffff), Some(u64::MAX as i128));
    assert_eq!(parse_int(&c("99999999999999999999999"), false, 0, 0xffff_ffff_ffff_ffff), None);
}

#[test]
fn trimming_and_splitting() {
    assert_eq!(trim_end(&c("ab \t\r")), c("ab"));
    assert_eq!(trim(&c("\u{3000} x y \n")), c("x y"));
    assert_eq!(split_chars(&c("a,,b"), ','), vec![c("a"), c(""), c("b")]);
    assert_eq!(chars_of("héllo"), c("héllo"));
}

#[test]
fn listing_lines_need_two_tabs() {
    let text = "path.only\nA.B\tVAL\t5 \r\n\n  \nC[1].D\tARRAY\t2\t1,2\tx\nE\tVAL\n";
    let a = read_assignments(text);
    assert_eq!(a.len(), 2);
    assert_eq!(a[0].path, c("A.B"));
    assert_eq!(a[0].kind, c("VAL"));
    assert_eq!(a[0].rest, c("5"));
    assert_eq!(a[1].path, c("C[1].D"));
    assert_eq!(a[1].kind, c("ARRAY"));
    assert_eq!(a[1].rest, c("2\t1,2\tx"));
}

#[test]
fn paths_split_into_named_steps() {
    let p = parse_path(&c("_Tables[0]._Flag"));
    assert_eq!(p.len(), 2);
    assert_eq!(p[0].hash, name_hash("_Tables"));
    assert_eq!(p[0].index, Some(0));
    assert_eq!(p[1].hash, name_hash("_Flag"));
    assert_eq!(p[1].index, None);
    let q = parse_path(&c("a[[12]]"));
    assert_eq!(q[0].hash, name_hash("a"));
    assert_eq!(q[0].index, Some(12));
    let r = parse_path(&c("a[x]"));
    assert_eq!(r[0].index, None);
}

#[test]
fn scalars_read_as_the_existing_variant() {
    assert!(matches!(scalar_from(&FieldValue::U8(0), &c("200"), no_float()), Some(FieldValue::U8(200))));
    assert!(scalar_from(&FieldValue::U8(0), &c("300"), no_float()).is_none());
    assert!(scalar_from(&FieldValue::U8(0), &c(" 2"), no_float()).is_none());
    assert!(matches!(scalar_from(&FieldValue::S16(0), &c("-300"), no_float()), Some(FieldValue::S16(-300))));
    assert!(matches!(scalar_from(&FieldValue::Boolean(false), &c("true"), no_float()), Some(FieldValue::Boolean(true))));
    assert!(scalar_from(&FieldValue::Boolean(false), &c("True"), no_float()).is_none());
    // an enum reads an i32, trimmed, and keeps its width (cut)
    assert!(matches!(
        scalar_from(&FieldValue::Enum(EnumValue::E1(0)), &c(" 300 "), no_float()),
        Some(FieldValue::Enum(EnumValue::E1(44)))
    ));
    assert!(matches!(
        scalar_from(&FieldValue::F64(0), &c("2.5"), floats("2.5")),
        Some(FieldValue::F64(b)) if b == 2.5f64.to_bits()
    ));
    assert!(scalar_from(&FieldValue::F32(0), &c("x"), floats("x")).is_none());
    assert!(scalar_from(&FieldValue::String(vec![]), &c("1"), no_float()).is_none());
}

#[test]
fn arrays_are_rebuilt_and_padded() {
    let mut v = arr(FieldType::U32, vec![FieldValue::U32(7), FieldValue::U32(8)]);
    assert!(assign_value(&mut v, &c("ARRAY"), &c("4\t-1, 5 ,x"), no_float()));
    match &v {
        FieldValue::Array(a) => {
            assert_eq!(a.values.len(), 4);
            assert!(matches!(a.values[0], FieldValue::U32(0xffff_ffff)));
            assert!(matches!(a.values[1], FieldValue::U32(5)));
            assert!(matches!(a.values[2], FieldValue::U32(7)));
            assert!(matches!(a.values[3], FieldValue::U32(7)));
        }
        _ => panic!(),
    }
    // no tab: refused, unchanged
    assert!(!assign_value(&mut v, &c("ARRAY"), &c("4"), no_float()));
    // an empty array of a type with no zero refuses numbers
    let mut o = arr(FieldType::Other, vec![]);
    assert!(!assign_value(&mut o, &c("ARRAY"), &c("1\t3"), no_float()));
    // but accepts a length alone: padded with u32 zeros
    assert!(assign_value(&mut o, &c("ARRAY"), &c("2\t"), no_float()));
    match &o {
        FieldValue::Array(a) => {
            assert_eq!(a.values.len(), 2);
            assert!(matches!(a.values[0], FieldValue::U32(0)));
        }
        _ => panic!(),
    }
    let mut e = arr(FieldType::S16, vec![]);
    assert!(assign_value(&mut e, &c("ARRAY"), &c("x\t70000"), no_float()));
    match &e {
        FieldValue::Array(a) => {
            assert_eq!(a.values.len(), 1);
            assert!(matches!(a.values[0], FieldValue::S16(x) if x == 70000i64 as i16));
        }
        _ => panic!(),
    }
    let mut b = arr(FieldType::Boolean, vec![FieldValue::Boolean(true)]);
    assert!(assign_value(&mut b, &c("ARRAY"), &c("1\t0,3"), no_float()));
    match &b {
        FieldValue::Array(a) => {
            assert!(matches!(a.values[0], FieldValue::Boolean(false)));
            assert!(matches!(a.values[1], FieldValue::Boolean(true)));
        }
        _ => panic!(),
    }
    let mut s = FieldValue::S32(1);
    assert!(!assign_value(&mut s, &c("ARRAY"), &c("1\t2"), no_float()));
    assert!(!assign_value(&mut s, &c("SET"), &c("2"), no_float()));
}

#[test]
fn ref_lines_walk_names_and_indices() {
    let mut t = sample_tree();
    assert!(apply_ref_line(&mut t, 1, &c("_Level"), &c("VAL"), &c("9"), no_float()));
    assert!(matches!(value(top(&t), "_Level"), FieldValue::U8(9)));
    assert!(apply_ref_line(&mut t, 1, &c("_Tables[0]._Count"), &c("VAL"), &c("12"), no_float()));
    match value(top(&t), "_Tables") {
        FieldValue::Array(a) => match &a.values[0] {
            FieldValue::Class(cl) => assert!(matches!(value(cl, "_Count"), FieldValue::S32(12))),
            _ => panic!(),
        },
        _ => panic!(),
    }
    // a path that ends on an index, a missing name, an index past the end
    assert!(!apply_ref_line(&mut t, 1, &c("_Tables[0]"), &c("VAL"), &c("1"), no_float()));
    assert!(!apply_ref_line(&mut t, 1, &c("_Missing"), &c("VAL"), &c("1"), no_float()));
    assert!(!apply_ref_line(&mut t, 1, &c("_Tables[3]._Count"), &c("VAL"), &c("1"), no_float()));
    assert!(apply_ref_line(&mut t, 1, &c("_Tables[0]._Flag"), &c("ARRAY"), &c("1\t5"), no_float()));
    assert!(apply_ref_line(&mut t, 1, &c("_Ratio"), &c("VAL"), &c("0.5"), floats("0.5")));
    assert!(matches!(value(top(&t), "_Ratio"), FieldValue::F32(b) if *b == 0.5f32.to_bits()));
}

#[test]
fn listing_counts_set_and_failed() {
    let mut t = sample_tree();
    let text = "_Level\n_Level\tVAL\t4\n_On\tVAL\ttrue\n_Big\tVAL\t-1\n_Kind\tARRAY\t1\t1\n";
    let entries: Vec<_> = read_assignments(text)
        .into_iter()
        .map(|e| {
            let fl = floats(&e.rest.iter().collect::<String>());
            (e, fl)
        })
        .collect();
    let r = apply_listing(&mut t, 0x2000, &entries);
    assert_eq!(r, Ok(ApplyCount { set: 2, failed: 2 }));
    assert!(matches!(value(top(&t), "_Level"), FieldValue::U8(4)));
    assert!(matches!(value(top(&t), "_On"), FieldValue::Boolean(true)));
    assert!(matches!(value(top(&t), "_Big"), FieldValue::U64(9)));
    let r2 = apply_listing(&mut t, 0x3000, &entries);
    assert_eq!(r2, Err(ApplyError::TopNotFound));
}

#[test]
fn listing_text_reads_back_through_an_array_assignment() {
    assert_eq!(decimal_text(0), c("0"));
    assert_eq!(decimal_text(-120), c("-120"));
    assert_eq!(decimal_text(i64::MIN as i128), c("-9223372036854775808"));
    let src = arr(
        FieldType::Other,
        vec![
            FieldValue::U32(4_000_000_000),
            FieldValue::S8(-5),
            FieldValue::Boolean(true),
            FieldValue::Enum(EnumValue::E2(-3)),
            FieldValue::U64(7),
        ],
    );
    let text = listing_text(&src).unwrap();
    assert_eq!(text, c("5\t4000000000,-5,1,-3,7"));
    let mut target = arr(
        FieldType::U32,
        vec![
            FieldValue::U32(1),
            FieldValue::S8(0),
            FieldValue::Boolean(false),
            FieldValue::Enum(EnumValue::E2(0)),
            FieldValue::U64(0),
        ],
    );
    assert!(assign_value(&mut target, &c("ARRAY"), &text, no_float()));
    match &target {
        FieldValue::Array(a) => {
            assert!(matches!(a.member_type, FieldType::U32));
            assert!(matches!(a.values[0], FieldValue::U32(4_000_000_000)));
            assert!(matches!(a.values[1], FieldValue::S8(-5)));
            assert!(matches!(a.values[2], FieldValue::Boolean(true)));
            assert!(matches!(a.values[3], FieldValue::Enum(EnumValue::E2(-3))));
            assert!(matches!(a.values[4], FieldValue::U64(7)));
        }
        _ => panic!(),
    }
    // non-numbers list as "-", and arrays of classes are not listed whole
    let odd = arr(FieldType::Other, vec![FieldValue::F32(0), FieldValue::String(vec![])]);
    assert_eq!(listing_text(&odd).unwrap(), c("2\t-,-"));
    let empty = arr(FieldType::Other, vec![]);
    assert_eq!(listing_text(&empty).unwrap(), c("0\t"));
    let classes = arr(FieldType::Other, vec![FieldValue::Class(Box::new(Class { hash: 1, fields: vec![] }))]);
    assert!(listing_text(&classes).is_none());
    assert!(listing_text(&FieldValue::U8(1)).is_none());
}
