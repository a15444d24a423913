use rust_zkp::error::DecodeError;
use rust_zkp::interchange::{create_json_proof, to_interchange};
use rust_zkp::proofs::Proof;
use serde_json::Value;

fn sample_proof() -> Vec<u8> {
    vec![
        82, 16, 85, 60, 130, 236, 10, 208, 97, 131, 248, 163, 138, 147, 220, 101,
        125, 233, 90, 64, 89, 67, 211, 240, 220, 125, 97, 233, 111, 180, 74, 159,
        233, 45, 92, 5, 165, 104, 187, 86, 50, 183, 108, 210, 90, 164, 13, 247,
        39, 132, 207, 46, 10, 102, 98, 106, 38, 138, 242, 130, 222, 139, 86, 39,
        232, 147, 7, 45, 109, 97, 139, 54, 218, 88, 163, 19, 47, 26, 31, 105,
        243, 36, 235, 117, 34, 16, 209, 25, 63, 106, 67, 213, 60, 103, 128, 16,
        5, 106, 139, 14, 10, 246, 192, 253, 104, 20, 196, 70, 158, 173, 209, 38,
        77, 149, 199, 59, 57, 236, 223, 247, 99, 91, 201, 177, 166, 122, 247, 44,
    ]
}


fn text(s: &str) -> Value {
    Value::String(s.to_string())
}

fn object(fields: Vec<(&str, Value)>) -> Value {
    let mut m = serde_json::Map::new();
    for (k, v) in fields {
        m.insert(k.to_string(), v);
    }
    Value::Object(m)
}

#[test]
fn interchange_names_curve_and_protocol() {
    let proof = Proof::decode(&sample_proof()).unwrap();
    let s = to_interchange(&proof);
    assert_eq!(s.curve, "bn254");
    assert_eq!(s.protocol, "groth16");
    assert!(!s.a.infinity);
    assert!(!s.b.infinity);
    assert!(!s.c.infinity);
}

#[test]
fn interchange_holds_decimal_coordinates() {
    let proof = Proof::decode(&sample_proof()).unwrap();
    let s = to_interchange(&proof);
    assert_eq!(
        s.a.x,
        "14153690320349230533576764211023345241392809030050012484748079850270521364562"
    );
    assert!(s.a.y.chars().all(|c| c.is_ascii_digit()));
    assert!(s.b.x.c0.chars().all(|c| c.is_ascii_digit()));
    assert!(s.b.x.c1.chars().all(|c| c.is_ascii_digit()));
    assert!(s.b.y.c0.chars().all(|c| c.is_ascii_digit()));
    assert!(s.b.y.c1.chars().all(|c| c.is_ascii_digit()));
    assert!(s.c.x.chars().all(|c| c.is_ascii_digit()));
    assert!(s.c.y.chars().all(|c| c.is_ascii_digit()));
}

#[test]
fn json_is_what_a_json_library_writes() {
    let bytes = sample_proof();
    let proof = Proof::decode(&bytes).unwrap();
    let s = to_interchange(&proof);
    let expected = object(vec![
        ("curve", text("bn254")),
        ("protocol", text("groth16")),
        (
            "a",
            object(vec![
                ("infinity", Value::Bool(s.a.infinity)),
                ("x", text(&s.a.x)),
                ("y", text(&s.a.y)),
            ]),
        ),
        (
            "b",
            object(vec![
                ("infinity", Value::Bool(s.b.infinity)),
                ("x", object(vec![("c0", text(&s.b.x.c0)), ("c1", text(&s.b.x.c1))])),
                ("y", object(vec![("c0", text(&s.b.y.c0)), ("c1", text(&s.b.y.c1))])),
            ]),
        ),
        (
            "c",
            object(vec![
                ("infinity", Value::Bool(s.c.infinity)),
                ("x", text(&s.c.x)),
                ("y", text(&s.c.y)),
            ]),
        ),
    ]);
    let json = create_json_proof(&bytes).unwrap();
    assert_eq!(json, serde_json::to_string(&expected).unwrap());
    assert_eq!(json, s.to_json());
    let parsed: Value = serde_json::from_str(&json).unwrap();
    assert_eq!(parsed, expected);
    assert_eq!(parsed["b"]["x"]["c1"], text(&s.b.x.c1));
}

#[test]
fn json_of_points_at_infinity() {
    let mut bytes = vec![0u8; 128];
    bytes[31] = 0x40;
    bytes[95] = 0x40;
    bytes[127] = 0x40;
    let json = create_json_proof(&bytes).unwrap();
    assert_eq!(
        json,
        "{\"a\":{\"infinity\":true,\"x\":\"0\",\"y\":\"1\"},\"b\":{\"infinity\":true,\"x\":{\"c0\":\"0\",\"c1\":\"0\"},\"y\":{\"c0\":\"1\",\"c1\":\"0\"}},\"c\":{\"infinity\":true,\"x\":\"0\",\"y\":\"1\"},\"curve\":\"bn254\",\"protocol\":\"groth16\"}"
    );
}

#[test]
fn json_of_bytes_that_are_no_proof_is_an_error() {
    assert_eq!(create_json_proof(&[1, 2, 3]), Err(DecodeError::Truncated));
    let mut bytes = sample_proof();
    bytes[31] |= 0xc0;
    assert_eq!(create_json_proof(&bytes), Err(DecodeError::NonCanonical));
    bytes.push(0);
    assert_eq!(create_json_proof(&bytes), Err(DecodeError::TrailingData));
}
