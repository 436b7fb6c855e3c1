use std::str::FromStr;

use ark_ff::BigInteger;
use ark_ec::AffineRepr;
use ark_ff::PrimeField;

use indifferentiable_hashing::bls12_377::Bls12377;
use indifferentiable_hashing::field::Fp;
use indifferentiable_hashing::hash::eta;
use indifferentiable_hashing::hash::hash_to_curve;
use indifferentiable_hashing::hash::hash_to_curve_unchecked;
use indifferentiable_hashing::hash::is_on_curve;
use indifferentiable_hashing::hash::map_to_curve;
use indifferentiable_hashing::hash::phi;
use indifferentiable_hashing::hash::CurvePoint;
use indifferentiable_hashing::hash::IndifferentiableHash;

fn fq(dec: &str) -> Fp {
    let v = ark_bls12_377::Fq::from_str(dec).unwrap();
    Fp { bytes: v.into_bigint().to_bytes_be() }
}

fn ark_point(x: &Fp, y: &Fp) -> ark_bls12_377::G1Affine {
    let ax = ark_bls12_377::Fq::from_be_bytes_mod_order(&x.bytes);
    let ay = ark_bls12_377::Fq::from_be_bytes_mod_order(&y.bytes);
    ark_bls12_377::G1Affine::new_unchecked(ax, ay)
}

#[test]
fn bls12_377_test_phi() {
    // the following test inputs are obtained from the sage code with an input string s = "input to the test function"
    let t1 = fq("147370668475511062768593417078575852502166305238356083047569242797625942237381383297554976390154627247147926493198");
    let t2 = fq("224774355318043699772479778485840064101168681398573284663454398463891850089724106885361203908127740164911167151215");

    let num0 = fq("234449642914633392584521837562757607648909920067153793849353346054582237272063982518508425009724223737848316641755");
    let num1 = fq("160423037891784530716005957016289640841111948835936426937484387262516599348586141547616157165397722747451244936808");
    let num2 = fq("200854173085308118897803307825269596310366771608609042760418432649291337856319134054493677223219947068309205676416");
    let den = fq("78398001865787854177025635014529777727601615001869942467487640632949237780287612570680483119195173304728124338625");

    let res = phi::<Bls12377>(&t1, &t2);

    assert_eq!(res.0.bytes, num0.bytes);
    assert_eq!(res.1.bytes, num1.bytes);
    assert_eq!(res.2.bytes, num2.bytes);
    assert_eq!(res.3.bytes, den.bytes);
}

#[test]
fn bls12_377_test_eta() {
    // the following test inputs are obtained from the sage code with an input string s = "input to the test function"
    let s = "input to the test function";
    let t1 = fq("147370668475511062768593417078575852502166305238356083047569242797625942237381383297554976390154627247147926493198");
    let t2 = fq("224774355318043699772479778485840064101168681398573284663454398463891850089724106885361203908127740164911167151215");

    let res = eta::<Bls12377>(&s.as_bytes().to_vec());
    assert_eq!(res.0.bytes, t1.bytes);
    assert_eq!(res.1.bytes, t2.bytes);
}

#[test]
fn bls12_377_test_h_prime() {
    // the following test inputs are obtained from the sage code with an input string s = "input to the test function"
    let t1 = fq("147370668475511062768593417078575852502166305238356083047569242797625942237381383297554976390154627247147926493198");
    let t2 = fq("224774355318043699772479778485840064101168681398573284663454398463891850089724106885361203908127740164911167151215");

    let num0 = fq("234449642914633392584521837562757607648909920067153793849353346054582237272063982518508425009724223737848316641755");
    let num1 = fq("160423037891784530716005957016289640841111948835936426937484387262516599348586141547616157165397722747451244936808");
    let num2 = fq("200854173085308118897803307825269596310366771608609042760418432649291337856319134054493677223219947068309205676416");
    let den = fq("78398001865787854177025635014529777727601615001869942467487640632949237780287612570680483119195173304728124338625");

    let x = fq("88447843811798607965089937473865912423924078263559752807725536262741898732229175112055733585000923536178427677939");
    let y = fq("139324808532316606671650275155567853806912817623105000585824704086139150798338823307830046341449999254302587526332");

    let res = <Bls12377 as IndifferentiableHash>::h_prime(&num0, &num1, &num2, &den, &t1, &t2)
        .unwrap();
    assert_eq!(x.bytes, res.0.bytes);
    assert_eq!(y.bytes, res.1.bytes);
}

#[test]
fn bls12_377_test_map() {
    // the following test inputs are obtained from the sage code with an input string s = "input to the test function"
    let s = "input to the test function";

    let x = fq("88447843811798607965089937473865912423924078263559752807725536262741898732229175112055733585000923536178427677939");
    let y = fq("139324808532316606671650275155567853806912817623105000585824704086139150798338823307830046341449999254302587526332");

    let res = hash_to_curve_unchecked::<Bls12377>(&s.as_bytes().to_vec());
    match res {
        CurvePoint::Affine { x: rx, y: ry } => {
            assert_eq!(x.bytes, rx.bytes);
            assert_eq!(y.bytes, ry.bytes);
            assert!(is_on_curve::<Bls12377>(&rx, &ry));
            assert!(ark_point(&rx, &ry).is_on_curve());
        }
        CurvePoint::Infinity => panic!("expected an affine point"),
    }
}

#[test]
fn bls12_377_constants() {
    // w^3 = 1, w != 1; sb^2 = b = 1; z is the zero sentinel
    let one = fq("1");
    let b = <Bls12377 as IndifferentiableHash>::b_fp();
    let w = <Bls12377 as IndifferentiableHash>::w_fp();
    let z = <Bls12377 as IndifferentiableHash>::z_fp();
    let sb = <Bls12377 as IndifferentiableHash>::sb_fp();

    let w2 = <Bls12377 as IndifferentiableHash>::fq_mul(&w, &w);
    let w3 = <Bls12377 as IndifferentiableHash>::fq_mul(&w2, &w);
    assert_eq!(w3.bytes, one.bytes);
    assert_ne!(w.bytes, one.bytes);

    let sb2 = <Bls12377 as IndifferentiableHash>::fq_mul(&sb, &sb);
    assert_eq!(sb2.bytes, b.bytes);
    assert_eq!(b.bytes, one.bytes);

    assert_eq!(z.bytes, fq("0").bytes);
}

#[test]
fn bls12_377_degenerate_zero() {
    // a field pair with t1 = 0 lies in the zero set of phi and maps to the identity
    let t1 = fq("0");
    let t2 = fq("224774355318043699772479778485840064101168681398573284663454398463891850089724106885361203908127740164911167151215");
    let res = map_to_curve::<Bls12377>(&t1, &t2);
    assert!(matches!(res, CurvePoint::Infinity));
    let res2 = map_to_curve::<Bls12377>(&t2, &t1);
    assert!(matches!(res2, CurvePoint::Infinity));
}

#[test]
fn bls12_377_degenerate_pole() {
    // a field pair on the pole locus of phi (denominator zero) maps to the generator
    let t1 = fq("145847162704847211777918094230445339021491593606095493969035854582072564040312653681715301306767159782647962896751");
    let t2 = fq("247251357393093074235744956174445685853600247440392935364066691373584061816275420517834525915327921905243024661078");
    let d = phi::<Bls12377>(&t1, &t2).3;
    assert_eq!(d.bytes, fq("0").bytes);
    let res = map_to_curve::<Bls12377>(&t1, &t2);
    let g = ark_bls12_377::G1Affine::generator();
    match res {
        CurvePoint::Affine { x, y } => {
            assert_eq!(x.bytes, g.x.into_bigint().to_bytes_be());
            assert_eq!(y.bytes, g.y.into_bigint().to_bytes_be());
        }
        CurvePoint::Infinity => panic!("expected the generator"),
    }
}

#[test]
fn bls12_377_on_curve_small_inputs() {
    // decimal strings of small integers, as in the regression table
    for i in 0..8u32 {
        let input = i.to_string().as_bytes().to_vec();
        let res = hash_to_curve_unchecked::<Bls12377>(&input);
        match res {
            CurvePoint::Affine { x, y } => {
                assert!(is_on_curve::<Bls12377>(&x, &y));
                assert!(ark_point(&x, &y).is_on_curve());
            }
            CurvePoint::Infinity => panic!("expected an affine point"),
        }
    }
}

#[test]
fn bls12_377_deterministic() {
    let input = "determinism check".as_bytes().to_vec();
    let p1 = hash_to_curve::<Bls12377>(&input);
    let p2 = hash_to_curve::<Bls12377>(&input);
    match (p1, p2) {
        (CurvePoint::Affine { x: x1, y: y1 }, CurvePoint::Affine { x: x2, y: y2 }) => {
            assert_eq!(x1.bytes, x2.bytes);
            assert_eq!(y1.bytes, y2.bytes);
        }
        _ => panic!("expected affine points"),
    }
}
