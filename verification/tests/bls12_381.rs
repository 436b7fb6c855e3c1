use std::str::FromStr;

use ark_ff::BigInteger;
use ark_ff::Field;
use ark_ec::AffineRepr;
use ark_ff::PrimeField;

use indifferentiable_hashing::bls12_381::Bls12381;
use indifferentiable_hashing::field::Fp;
use indifferentiable_hashing::hash::eta;
use indifferentiable_hashing::hash::hash_to_curve;
use indifferentiable_hashing::hash::hash_to_curve_unchecked;
use indifferentiable_hashing::hash::is_on_curve;
use indifferentiable_hashing::hash::map_to_curve;
use indifferentiable_hashing::hash::phi;
use indifferentiable_hashing::hash::CurvePoint;
use indifferentiable_hashing::hash::IndifferentiableHash;

fn fq(dec: &str) -> Fp {
    let v = ark_bls12_381::Fq::from_str(dec).unwrap();
    Fp { bytes: v.into_bigint().to_bytes_be() }
}

fn ark_point(x: &Fp, y: &Fp) -> ark_bls12_381::G1Affine {
    let ax = ark_bls12_381::Fq::from_be_bytes_mod_order(&x.bytes);
    let ay = ark_bls12_381::Fq::from_be_bytes_mod_order(&y.bytes);
    ark_bls12_381::G1Affine::new_unchecked(ax, ay)
}

#[test]
fn bls12_381_test_phi() {
    // the following test inputs are obtained from the sage code with an input string s = "input to the test function"
    let t1 = fq("1637916486738181879757594354935247698146190377973924295856087059563097387500579915402466902218127343335463775185097");
    let t2 = fq("3084368236562539678793686966099022796947242601500183975334286593823404552243658178662185836974209583527845605498635");

    let num0 = fq("668793913132438851216583034173410129819241113864860331755488532912633001474798319621970922570168293026704984270511");
    let num1 = fq("3212829122310676996023797374386516136736852421021963527590835393030480338172734951597532304343302753388335391481734");
    let num2 = fq("1548716369932015580776602644005522146811092687079938004520416189245103671602049774350095885666396762320849868946947");
    let den = fq("2715169702687565714008491526282724206683593110983380931933370057594108505624791522784799556289933904367945122349596");

    let res = phi::<Bls12381>(&t1, &t2);

    assert_eq!(res.0.bytes, num0.bytes);
    assert_eq!(res.1.bytes, num1.bytes);
    assert_eq!(res.2.bytes, num2.bytes);
    assert_eq!(res.3.bytes, den.bytes);
}

#[test]
fn bls12_381_test_eta() {
    // the following test inputs are obtained from the sage code with an input string s = "input to the test function"
    let s = "input to the test function";
    let t1 = fq("1637916486738181879757594354935247698146190377973924295856087059563097387500579915402466902218127343335463775185097");
    let t2 = fq("3084368236562539678793686966099022796947242601500183975334286593823404552243658178662185836974209583527845605498635");

    let res = eta::<Bls12381>(&s.as_bytes().to_vec());
    assert_eq!(res.0.bytes, t1.bytes);
    assert_eq!(res.1.bytes, t2.bytes);
}

#[test]
fn bls12_381_test_h_prime() {
    // the following test inputs are obtained from the sage code with an input string s = "input to the test function"
    let t1 = fq("1637916486738181879757594354935247698146190377973924295856087059563097387500579915402466902218127343335463775185097");
    let t2 = fq("3084368236562539678793686966099022796947242601500183975334286593823404552243658178662185836974209583527845605498635");

    let num0 = fq("668793913132438851216583034173410129819241113864860331755488532912633001474798319621970922570168293026704984270511");
    let num1 = fq("3212829122310676996023797374386516136736852421021963527590835393030480338172734951597532304343302753388335391481734");
    let num2 = fq("1548716369932015580776602644005522146811092687079938004520416189245103671602049774350095885666396762320849868946947");
    let den = fq("2715169702687565714008491526282724206683593110983380931933370057594108505624791522784799556289933904367945122349596");

    let x = fq("1816253950397860200714343084334638831538056055256723554500548354781499946331741127336760011522698677680124556029416");
    let y = fq("3244022000566907360019058064254357188251810714491513483291828058507316467039183172973529080475518022136703508585130");

    let res = <Bls12381 as IndifferentiableHash>::h_prime(&num0, &num1, &num2, &den, &t1, &t2)
        .unwrap();
    assert_eq!(x.bytes, res.0.bytes);
    assert_eq!(y.bytes, res.1.bytes);
}

#[test]
fn bls12_381_test_map() {
    // the following test inputs are obtained from the sage code with an input string s = "input to the test function"
    let s = "input to the test function";

    let x = fq("1816253950397860200714343084334638831538056055256723554500548354781499946331741127336760011522698677680124556029416");
    let y = fq("3244022000566907360019058064254357188251810714491513483291828058507316467039183172973529080475518022136703508585130");

    let res = hash_to_curve_unchecked::<Bls12381>(&s.as_bytes().to_vec());
    match res {
        CurvePoint::Affine { x: rx, y: ry } => {
            assert_eq!(x.bytes, rx.bytes);
            assert_eq!(y.bytes, ry.bytes);
            assert!(is_on_curve::<Bls12381>(&rx, &ry));
            assert!(ark_point(&rx, &ry).is_on_curve());
        }
        CurvePoint::Infinity => panic!("expected an affine point"),
    }
}

#[test]
fn bls12_381_constants() {
    // w^3 = 1, w != 1; sb^2 = b; z^9 = 1 and z^3 = w; c^3 * z^2 = b
    let one = fq("1");
    let b = <Bls12381 as IndifferentiableHash>::b_fp();
    let w = <Bls12381 as IndifferentiableHash>::w_fp();
    let z = <Bls12381 as IndifferentiableHash>::z_fp();
    let sb = <Bls12381 as IndifferentiableHash>::sb_fp();
    let c = fq("529033685927954107995765316255150655705710311730735691995243315144334423929822497684682959478359149743541419332944");

    let w2 = <Bls12381 as IndifferentiableHash>::fq_mul(&w, &w);
    let w3 = <Bls12381 as IndifferentiableHash>::fq_mul(&w2, &w);
    assert_eq!(w3.bytes, one.bytes);
    assert_ne!(w.bytes, one.bytes);

    let sb2 = <Bls12381 as IndifferentiableHash>::fq_mul(&sb, &sb);
    assert_eq!(sb2.bytes, b.bytes);

    let z2 = <Bls12381 as IndifferentiableHash>::fq_mul(&z, &z);
    let z3 = <Bls12381 as IndifferentiableHash>::fq_mul(&z2, &z);
    assert_eq!(z3.bytes, w.bytes);
    let z6 = <Bls12381 as IndifferentiableHash>::fq_mul(&z3, &z3);
    let z9 = <Bls12381 as IndifferentiableHash>::fq_mul(&z6, &z3);
    assert_eq!(z9.bytes, one.bytes);

    let c2 = <Bls12381 as IndifferentiableHash>::fq_mul(&c, &c);
    let c3 = <Bls12381 as IndifferentiableHash>::fq_mul(&c2, &c);
    let c3z2 = <Bls12381 as IndifferentiableHash>::fq_mul(&c3, &z2);
    assert_eq!(c3z2.bytes, b.bytes);
}

#[test]
fn bls12_381_degenerate_zero() {
    // a field pair with t1 = 0 lies in the zero set of phi and maps to the identity
    let t1 = fq("0");
    let t2 = fq("3084368236562539678793686966099022796947242601500183975334286593823404552243658178662185836974209583527845605498635");
    let res = map_to_curve::<Bls12381>(&t1, &t2);
    assert!(matches!(res, CurvePoint::Infinity));
    let res2 = map_to_curve::<Bls12381>(&t2, &t1);
    assert!(matches!(res2, CurvePoint::Infinity));
}

#[test]
fn bls12_381_degenerate_pole() {
    // a field pair on the pole locus of phi (denominator zero) maps to the generator
    let t1 = fq("3068808584554126233953436617520069628499614657420551941725000700441430742192361805320613293406084201578314675095909");
    let t2 = fq("529033685927954107995765316255150655705710311730735691995243315144334423929822497684682959478359149743541419332944");
    let d = phi::<Bls12381>(&t1, &t2).3;
    assert_eq!(d.bytes, fq("0").bytes);
    let res = map_to_curve::<Bls12381>(&t1, &t2);
    let g = ark_bls12_381::G1Affine::generator();
    match res {
        CurvePoint::Affine { x, y } => {
            assert_eq!(x.bytes, g.x.into_bigint().to_bytes_be());
            assert_eq!(y.bytes, g.y.into_bigint().to_bytes_be());
        }
        CurvePoint::Infinity => panic!("expected the generator"),
    }
}

#[test]
fn bls12_381_on_curve_small_inputs() {
    // decimal strings of small integers, as in the regression table
    for i in 0..8u32 {
        let input = i.to_string().as_bytes().to_vec();
        let res = hash_to_curve_unchecked::<Bls12381>(&input);
        match res {
            CurvePoint::Affine { x, y } => {
                assert!(is_on_curve::<Bls12381>(&x, &y));
                assert!(ark_point(&x, &y).is_on_curve());
            }
            CurvePoint::Infinity => panic!("expected an affine point"),
        }
    }
}

#[test]
fn bls12_381_deterministic() {
    let input = "determinism check".as_bytes().to_vec();
    let p1 = hash_to_curve::<Bls12381>(&input);
    let p2 = hash_to_curve::<Bls12381>(&input);
    let q = hash_to_curve_unchecked::<Bls12381>(&input);
    match (p1, p2, q) {
        (
            CurvePoint::Affine { x: x1, y: y1 },
            CurvePoint::Affine { x: x2, y: y2 },
            CurvePoint::Affine { x: x3, y: y3 },
        ) => {
            assert_eq!(x1.bytes, x2.bytes);
            assert_eq!(y1.bytes, y2.bytes);
            assert_eq!(x1.bytes, x3.bytes);
            assert_eq!(y1.bytes, y3.bytes);
        }
        _ => panic!("expected affine points"),
    }
}

#[test]
fn bls12_381_c_constant_cube_character() {
    // Euler's criterion: a unit is a cube exactly when raising it to
    // (q-1)/3 gives one. b/z has no cube root -- for any ninth root z'
    // with z'^3 = w -- while b/z^2 does, and c is its cube root.
    let e = ark_bls12_381::Fq::from_str("1334136518407222464472596608578634718852294273313002628444019378708010550163612621480895876376338554679298090853262").unwrap().into_bigint();
    let b = ark_bls12_381::Fq::from(4u64);
    let z = ark_bls12_381::Fq::from_str("656279539151453036372723733049135970080835961207516703218496207152846698634665245028822411104358743008817256364884").unwrap();
    let c = ark_bls12_381::Fq::from_str("529033685927954107995765316255150655705710311730735691995243315144334423929822497684682959478359149743541419332944").unwrap();
    let one = ark_bls12_381::Fq::from(1u64);
    let w = z * z * z;
    assert_eq!(w * w * w, one);
    for k in 0..3u64 {
        let zp = z * w.pow([k]);
        assert_eq!(zp * zp * zp, w);
        assert_ne!((b / zp).pow(e), one);
    }
    assert_eq!((b / (z * z)).pow(e), one);
    assert_eq!(c * c * c * z * z, b);
}
