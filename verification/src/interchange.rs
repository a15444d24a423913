//! A proof as named fields and decimal numerals, for consumers that do not
//! read the binary encoding.

use crate::curve::{Fq2, G1Point, G2Point};
use crate::decimal::{decimal, to_decimal};
use crate::error::DecodeError;
use crate::proofs::Proof;
use vstd::prelude::*;
use vstd::string::StringExecFns;

verus! {

/// A point of G1: its flag and the decimal numerals of its coordinates.
#[derive(Clone, Debug, PartialEq, Eq)]
pub struct StructuredG1 {
    pub infinity: bool,
    pub x: String,
    pub y: String,
}

/// An element of the quadratic extension: the decimal numerals of its two
/// components.
#[derive(Clone, Debug, PartialEq, Eq)]
pub struct StructuredFq2 {
    pub c0: String,
    pub c1: String,
}

/// A point of G2: its flag and its two coordinates.
#[derive(Clone, Debug, PartialEq, Eq)]
pub struct StructuredG2 {
    pub infinity: bool,
    pub x: StructuredFq2,
    pub y: StructuredFq2,
}

/// A proof with the names of its curve and its protocol.
#[derive(Clone, Debug, PartialEq, Eq)]
pub struct StructuredProof {
    pub curve: String,
    pub protocol: String,
    pub a: StructuredG1,
    pub b: StructuredG2,
    pub c: StructuredG1,
}

/// The text of a truth value.
pub open spec fn bool_text(b: bool) -> Seq<char> {
    if b {
        "true"@
    } else {
        "false"@
    }
}

impl StructuredG1 {
    /// Whether the fields show the point `p`.
    pub open spec fn shows(self, p: G1Point) -> bool {
        &&& self.infinity == p.infinity
        &&& self.x@ == decimal(p.x@)
        &&& self.y@ == decimal(p.y@)
    }

    /// The fields as a JSON object, the names in alphabetical order.
    pub open spec fn json_text(self) -> Seq<char> {
        "{\"infinity\":"@ + bool_text(self.infinity) + ",\"x\":\""@ + self.x@ + "\",\"y\":\""@
            + self.y@ + "\"}"@
    }
}

impl StructuredFq2 {
    /// Whether the fields show the element `v`.
    pub open spec fn shows(self, v: Fq2) -> bool {
        &&& self.c0@ == decimal(v.c0@)
        &&& self.c1@ == decimal(v.c1@)
    }

    /// The fields as a JSON object.
    pub open spec fn json_text(self) -> Seq<char> {
        "{\"c0\":\""@ + self.c0@ + "\",\"c1\":\""@ + self.c1@ + "\"}"@
    }
}

impl StructuredG2 {
    /// Whether the fields show the point `p`.
    pub open spec fn shows(self, p: G2Point) -> bool {
        &&& self.infinity == p.infinity
        &&& self.x.shows(p.x)
        &&& self.y.shows(p.y)
    }

    /// The fields as a JSON object, the names in alphabetical order.
    pub open spec fn json_text(self) -> Seq<char> {
        "{\"infinity\":"@ + bool_text(self.infinity) + ",\"x\":"@ + self.x.json_text() + ",\"y\":"@
            + self.y.json_text() + "}"@
    }
}

impl StructuredProof {
    /// Whether the fields show the proof `p` as a Groth16 proof over BN254.
    pub open spec fn shows(self, p: Proof) -> bool {
        &&& self.curve@ == "bn254"@
        &&& self.protocol@ == "groth16"@
        &&& self.a.shows(p.a)
        &&& self.b.shows(p.b)
        &&& self.c.shows(p.c)
    }

    /// The fields as a JSON object, the names in alphabetical order. The
    /// strings are written as they are: they hold digits and letters where
    /// `to_interchange` made them.
    pub open spec fn json_text(self) -> Seq<char> {
        "{\"a\":"@ + self.a.json_text() + ",\"b\":"@ + self.b.json_text() + ",\"c\":"@
            + self.c.json_text() + ",\"curve\":\""@ + self.curve@ + "\",\"protocol\":\""@
            + self.protocol@ + "\"}"@
    }

    /// The proof as JSON text.
    pub fn to_json(&self) -> (r: String)
        ensures
            r@ == self.json_text(),
    {
        let mut out = String::from_str("{\"a\":");
        let a = g1_json(&self.a);
        let b = g2_json(&self.b);
        let c = g1_json(&self.c);
        out.append(a.as_str());
        out.append(",\"b\":");
        out.append(b.as_str());
        out.append(",\"c\":");
        out.append(c.as_str());
        out.append(",\"curve\":\"");
        out.append(self.curve.as_str());
        out.append("\",\"protocol\":\"");
        out.append(self.protocol.as_str());
        out.append("\"}");
        assert(out@ =~= self.json_text());
        out
    }
}

/// The JSON text of a proof.
pub open spec fn proof_json(p: Proof) -> Seq<char> {
    "{\"a\":"@ + g1_point_json(p.a) + ",\"b\":"@ + g2_point_json(p.b) + ",\"c\":"@ + g1_point_json(
        p.c,
    ) + ",\"curve\":\"bn254\",\"protocol\":\"groth16\"}"@
}

/// The JSON text of a point of G1.
pub open spec fn g1_point_json(p: G1Point) -> Seq<char> {
    "{\"infinity\":"@ + bool_text(p.infinity) + ",\"x\":\""@ + decimal(p.x@) + "\",\"y\":\""@
        + decimal(p.y@) + "\"}"@
}

/// The JSON text of an element of the quadratic extension.
pub open spec fn fq2_json(v: Fq2) -> Seq<char> {
    "{\"c0\":\""@ + decimal(v.c0@) + "\",\"c1\":\""@ + decimal(v.c1@) + "\"}"@
}

/// The JSON text of a point of G2.
pub open spec fn g2_point_json(p: G2Point) -> Seq<char> {
    "{\"infinity\":"@ + bool_text(p.infinity) + ",\"x\":"@ + fq2_json(p.x) + ",\"y\":"@ + fq2_json(
        p.y,
    ) + "}"@
}

/// The JSON text of a truth value.
fn bool_json(b: bool) -> (r: &'static str)
    ensures
        r@ == bool_text(b),
{
    if b {
        "true"
    } else {
        "false"
    }
}

/// The JSON text of the structured form of a point of G1.
fn g1_json(p: &StructuredG1) -> (r: String)
    ensures
        r@ == p.json_text(),
{
    let mut out = String::from_str("{\"infinity\":");
    out.append(bool_json(p.infinity));
    out.append(",\"x\":\"");
    out.append(p.x.as_str());
    out.append("\",\"y\":\"");
    out.append(p.y.as_str());
    out.append("\"}");
    assert(out@ =~= p.json_text());
    out
}

/// The JSON text of the structured form of an element of the extension.
fn fq2_text(v: &StructuredFq2) -> (r: String)
    ensures
        r@ == v.json_text(),
{
    let mut out = String::from_str("{\"c0\":\"");
    out.append(v.c0.as_str());
    out.append("\",\"c1\":\"");
    out.append(v.c1.as_str());
    out.append("\"}");
    assert(out@ =~= v.json_text());
    out
}

/// The JSON text of the structured form of a point of G2.
fn g2_json(p: &StructuredG2) -> (r: String)
    ensures
        r@ == p.json_text(),
{
    let mut out = String::from_str("{\"infinity\":");
    let x = fq2_text(&p.x);
    let y = fq2_text(&p.y);
    out.append(bool_json(p.infinity));
    out.append(",\"x\":");
    out.append(x.as_str());
    out.append(",\"y\":");
    out.append(y.as_str());
    out.append("}");
    assert(out@ =~= p.json_text());
    out
}

/// The structured form of a point of G1.
pub fn g1_to_interchange(p: &G1Point) -> (r: StructuredG1)
    ensures
        r.shows(*p),
{
    StructuredG1 { infinity: p.infinity, x: to_decimal(&p.x), y: to_decimal(&p.y) }
}

/// The structured form of an element of the quadratic extension.
pub fn fq2_to_interchange(v: &Fq2) -> (r: StructuredFq2)
    ensures
        r.shows(*v),
{
    StructuredFq2 { c0: to_decimal(&v.c0), c1: to_decimal(&v.c1) }
}

/// The structured form of a point of G2.
pub fn g2_to_interchange(p: &G2Point) -> (r: StructuredG2)
    ensures
        r.shows(*p),
{
    StructuredG2 {
        infinity: p.infinity,
        x: fq2_to_interchange(&p.x),
        y: fq2_to_interchange(&p.y),
    }
}

/// The structured form of a proof: the names of the curve and the protocol,
/// and for each point its flag and the decimal numerals of its coordinates.
pub fn to_interchange(proof: &Proof) -> (r: StructuredProof)
    ensures
        r.shows(*proof),
        r.json_text() == proof_json(*proof),
{
    let r = StructuredProof {
        curve: String::from_str("bn254"),
        protocol: String::from_str("groth16"),
        a: g1_to_interchange(&proof.a),
        b: g2_to_interchange(&proof.b),
        c: g1_to_interchange(&proof.c),
    };
    proof {
        lemma_shown_json(r, *proof);
    }
    r
}

/// The JSON text of a structured form that shows a proof is the JSON text
/// of that proof.
pub proof fn lemma_shown_json(s: StructuredProof, p: Proof)
    requires
        s.shows(p),
    ensures
        s.json_text() == proof_json(p),
{
    reveal_strlit("\",\"protocol\":\"");
    reveal_strlit("\"}");
    reveal_strlit("bn254");
    reveal_strlit("groth16");
    reveal_strlit(",\"curve\":\"");
    reveal_strlit(",\"curve\":\"bn254\",\"protocol\":\"groth16\"}");
    assert(",\"curve\":\""@ + "bn254"@ + "\",\"protocol\":\""@ + "groth16"@ + "\"}"@
        =~= ",\"curve\":\"bn254\",\"protocol\":\"groth16\"}"@);
    assert(s.a.json_text() == g1_point_json(p.a));
    assert(s.c.json_text() == g1_point_json(p.c));
    assert(s.b.x.json_text() == fq2_json(p.b.x));
    assert(s.b.y.json_text() == fq2_json(p.b.y));
    assert(s.b.json_text() == g2_point_json(p.b));
    let head = "{\"a\":"@ + s.a.json_text() + ",\"b\":"@ + s.b.json_text() + ",\"c\":"@
        + s.c.json_text();
    assert(s.json_text() =~= head + (",\"curve\":\""@ + "bn254"@ + "\",\"protocol\":\""@
        + "groth16"@ + "\"}"@));
    assert(proof_json(p) =~= head + ",\"curve\":\"bn254\",\"protocol\":\"groth16\"}"@);
}

/// Decodes a proof and gives it as JSON text: an object with the fields
/// `a`, `b`, `c`, `curve` and `protocol`.
pub fn create_json_proof(proof_vec: &[u8]) -> (r: Result<String, DecodeError>)
    ensures
        match Proof::decoding(proof_vec@) {
            Ok(p) => r matches Ok(text) && text@ == proof_json(p),
            Err(e) => r == Err::<String, DecodeError>(e),
        },
{
    match Proof::decode(proof_vec) {
        Ok(p) => Ok(to_interchange(&p).to_json()),
        Err(e) => Err(e),
    }
}

} // verus!
