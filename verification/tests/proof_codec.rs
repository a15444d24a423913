use rust_zkp::error::DecodeError;
use rust_zkp::proofs::Proof;

fn published_proof() -> Vec<u8> {
    vec![
        82, 16, 85, 60, 130, 236, 10, 208, 97, 131, 248, 163, 138, 147, 220, 101, 125, 233, 90,
        64, 89, 67, 211, 240, 220, 125, 97, 233, 111, 180, 74, 159, 233, 45, 92, 5, 165, 104, 187,
        86, 50, 183, 108, 210, 90, 164, 13, 247, 39, 132, 207, 46, 10, 102, 98, 106, 38, 138, 242,
        130, 222, 139, 86, 39, 232, 147, 7, 45, 109, 97, 139, 54, 218, 88, 163, 19, 47, 26, 31,
        105, 243, 36, 235, 117, 34, 16, 209, 25, 63, 106, 67, 213, 60, 103, 128, 16, 5, 106, 139,
        14, 10, 246, 192, 253, 104, 20, 196, 70, 158, 173, 209, 38, 77, 149, 199, 59, 57, 236,
        223, 247, 99, 91, 201, 177, 166, 122, 247, 44,
    ]
}

#[test]
fn published_proof_decodes_and_encodes_back() {
    let bytes = published_proof();
    let proof = Proof::decode(&bytes).expect("the published proof decodes");
    assert!(!proof.a.infinity);
    assert_eq!(proof.encode(), bytes);
}

#[test]
fn short_proof_is_truncated() {
    let bytes = published_proof();
    assert_eq!(Proof::decode(&bytes[..127]), Err(DecodeError::Truncated));
    assert_eq!(Proof::decode(&[]), Err(DecodeError::Truncated));
}

#[test]
fn long_proof_has_trailing_data() {
    let mut bytes = published_proof();
    bytes.push(0);
    assert_eq!(Proof::decode(&bytes), Err(DecodeError::TrailingData));
}
