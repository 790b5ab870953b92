use zkml::claim::{Claim, Tensor};
use zkml::error::LayerError;
use zkml::field::{Fp, MODULUS};
use zkml::layer::{
    ContextAux, LayerCtx, OpInfo, PadOp, PaddingMode, ProveInfo, RequantCtx, TableType,
};
use zkml::protocol::{LayerProof, RequantProof};
use zkml::requant::{Requant, RequantResult};

fn minimal() -> Requant {
    Requant::new(128, 8, 256)
}

fn lifted(values: &[i128]) -> Vec<Fp> {
    values.iter().map(|v| Fp::from_element(*v)).collect()
}

#[test]
fn field_lifts_negative_values() {
    assert_eq!(Fp::from_element(0).to_canonical_u64(), 0);
    assert_eq!(Fp::from_element(5).to_canonical_u64(), 5);
    assert_eq!(Fp::from_element(-1).to_canonical_u64(), MODULUS - 1);
    assert_eq!(Fp::from_element(-32).to_canonical_u64(), MODULUS - 32);
    assert_eq!(Fp::from_element(MODULUS as i128).to_canonical_u64(), 0);
    assert_eq!(Fp::from_element(-(MODULUS as i128)).to_canonical_u64(), 0);
    assert_eq!(Fp::from_element(i128::MIN).to_canonical_u64(), {
        let m = MODULUS as i128;
        (((i128::MIN % m) + m) % m) as u64
    });
}

#[test]
fn field_arithmetic_wraps() {
    let a = Fp::new(MODULUS - 1);
    let b = Fp::new(2);
    assert_eq!(a.add(b).to_canonical_u64(), 1);
    assert_eq!(b.sub(a).to_canonical_u64(), 3);
    assert_eq!(a.mul(a).to_canonical_u64(), 1);
    assert_eq!(a.mul(b).to_canonical_u64(), MODULUS - 2);
    assert_eq!(Fp::new(MODULUS).to_canonical_u64(), 0);
    assert_eq!(Fp::zero().to_canonical_u64(), 0);
    // any representative is taken, and a reduced one comes out
    let top = Fp { value: u64::MAX };
    let small = (u64::MAX - MODULUS) as u128;
    assert_eq!(top.add(top).to_canonical_u64() as u128, (2 * small) % MODULUS as u128);
    assert_eq!(Fp::zero().sub(top).to_canonical_u64() as u128, MODULUS as u128 - small);
    assert_eq!(top.mul(top).to_canonical_u64() as u128, (small * small) % MODULUS as u128);
}

#[test]
fn minimal_requant_of_zero() {
    let q = minimal();
    assert_eq!(q.apply(&0), RequantResult::InRange(0));
    assert_eq!(q.num_columns(), 3);
    assert_eq!(q.decompose(0, true), vec![128, 0, 0]);
    assert_eq!(q.decompose(0, false), vec![0, 0, 0]);
    let r = q.recombine_claims(&lifted(&[128, 0]));
    assert_eq!(r.to_canonical_u64(), 0);
    let r = q.recombine_claims(&lifted(&[128, 0, 0]));
    assert_eq!(r.to_canonical_u64(), 0);
}

#[test]
fn negative_input() {
    let q = minimal();
    assert_eq!(q.apply(&-32), RequantResult::InRange(-1));
    assert_eq!(q.decompose(-32, true), vec![127, 0, 224]);
    let r = q.recombine_claims(&lifted(&[127, 224]));
    assert_eq!(r, Fp::from_element(-32));
    assert_eq!(r.to_canonical_u64(), MODULUS - 32);
    assert_eq!(q.recombine_claims(&lifted(&[127, 0, 224])), Fp::from_element(-32));
}

#[test]
fn shift_not_a_multiple_of_limb_width() {
    let q = Requant::new(1024, 10, 256);
    assert_eq!(q.num_columns(), 4);
    assert_eq!(q.apply(&5), RequantResult::InRange(0));
    assert_eq!(q.decompose(5, true), vec![128, 0, 0, 5]);
    assert_eq!(q.decompose(5, false), vec![0, 0, 0, 5]);
    let r = q.recombine_claims(&lifted(&[128, 0, 0, 5]));
    assert_eq!(r.to_canonical_u64(), 5);
    assert_eq!(q.decompose(1023, true), vec![128, 0, 3, 255]);
    assert_eq!(Requant::new(1024, 1, 256).num_columns(), 2);
    assert_eq!(Requant::new(1024, 2, 256).num_columns(), 3);
    assert_eq!(Requant::new(1024, 9, 256).num_columns(), 3);
    assert_eq!(Requant::new(1024, 17, 256).num_columns(), 4);
    assert_eq!(Requant::new(1024, 18, 256).num_columns(), 5);
}

#[test]
fn out_of_range_is_flagged_and_not_clamped() {
    let q = Requant::new(1024, 1, 4);
    let r = q.apply(&100);
    assert_eq!(r, RequantResult::OutOfRange(50));
    assert!(!r.is_in_range());
    assert_eq!(r.value(), 50);
    assert_eq!(q.apply(&-100), RequantResult::OutOfRange(-50));
    assert_eq!(q.apply(&3), RequantResult::InRange(1));
    assert_eq!(q.apply(&-4), RequantResult::InRange(-2));
    assert_eq!(q.apply(&4), RequantResult::OutOfRange(2));
    let t = Tensor::new(vec![5], vec![100, -100, 3, -4, 4]);
    assert_eq!(q.count_out_of_range(&t), 3);
    let out = q.op(&t).unwrap();
    assert_eq!(out.data, vec![50, -50, 1, -2, 2]);
}

#[test]
fn recombination_gives_back_every_input() {
    for q in [minimal(), Requant::new(1024, 10, 256), Requant::new(300, 5, 4), Requant::new(7, 1, 2), Requant::new(1 << 40, 63, 1 << 20)] {
        let lo = -2 * (q.range as i128);
        for e in (lo..lo + 600).chain(-50..50).chain(100_000..100_050) {
            if e < lo {
                continue;
            }
            let cols = q.decompose(e, true);
            assert_eq!(cols.len(), q.num_columns());
            for c in cols.iter().skip(1) {
                assert!(0 <= *c && *c < q.after_range as i128);
            }
            let r = q.recombine_claims(&lifted(&cols));
            assert_eq!(r, Fp::from_element(e));
        }
    }
}

#[test]
fn output_column_is_the_requantized_value() {
    for q in [minimal(), Requant::new(1024, 10, 256), Requant::new(300, 5, 4)] {
        for e in -600i128..600 {
            let cols = q.prep_for_requantize(&[e]);
            assert_eq!(cols[0][0], Fp::from_element(q.apply(&e).value()));
            let shifted = q.lookup_witness(&[e]).1;
            assert_eq!(
                shifted[0][0],
                Fp::from_element(q.apply(&e).value() + (q.after_range as i128) / 2)
            );
            for c in 1..cols.len() {
                assert_eq!(cols[c][0], shifted[c][0]);
            }
        }
    }
}

#[test]
fn op_keeps_the_shape() {
    let q = minimal();
    let t = Tensor::new(vec![2, 3], vec![0, -32, 255, 256, -256, 511]);
    let out = q.op(&t).unwrap();
    assert_eq!(out.shape, vec![2, 3]);
    assert_eq!(out.get_shape(), t.get_shape());
    assert_eq!(out.data, vec![0, -1, 0, 1, -1, 1]);
    assert_eq!(out.get_data(), &[0, -1, 0, 1, -1, 1]);
    assert_eq!(q.count_out_of_range(&t), 0);
}

#[test]
fn lookup_witness_is_padded_and_column_major() {
    let q = minimal();
    let (merged, cols) = q.lookup_witness(&[0, -32, 300]);
    assert_eq!(cols.len(), 3);
    assert_eq!(cols[0].len(), 4);
    // 300 + 256 = 556 = 2 * 256 + 44
    assert_eq!(merged, vec![128, 127, 129, 0, 0, 0, 0, 0, 0, 224, 44, 0]);
    let expect: Vec<Vec<Fp>> =
        vec![lifted(&[128, 127, 129, 0]), lifted(&[0, 0, 0, 0]), lifted(&[0, 224, 44, 0])];
    assert_eq!(cols, expect);
    let plain = q.columns(&[0, -32, 300], false);
    assert_eq!(plain, vec![vec![0, -1, 1, 0], vec![0, 0, 0, 0], vec![0, 224, 44, 0]]);
    let prep = q.prep_for_requantize(&[0, -32, 300]);
    assert_eq!(prep[0], lifted(&[0, -1, 1, 0]));
    assert_eq!(prep[1], lifted(&[0, 0, 0, 0]));
    assert_eq!(prep[2], lifted(&[0, 224, 44, 0]));
    let (one, _) = q.lookup_witness(&[7]);
    assert_eq!(one.len(), 3);
    let narrow = Requant::new(128, 1, 256);
    let (merged, _) = narrow.lookup_witness(&[5, -3]);
    // 5 + 256 = 2 * 130 + 1 and -3 + 256 = 2 * 126 + 1; the shifted offset and half the
    // range are both 128
    assert_eq!(merged, vec![130, 126, 1, 1]);
}

#[test]
fn range_table_lists_the_output_domain() {
    let q = Requant::new(16, 2, 8);
    assert_eq!(q.to_mle(), lifted(&[-4, -3, -2, -1, 0, 1, 2, 3]));
    assert_eq!(minimal().to_mle().len(), 256);
}

#[test]
fn recombine_takes_every_claim_it_is_given() {
    let q = minimal();
    // 256 * (c0 + 1 - 128) + (c1 * 256 + c2) - 256
    let r = q.recombine_claims(&lifted(&[130, 2, 3]));
    assert_eq!(r, Fp::from_element(256 * 3 + 2 * 256 + 3 - 256));
    let only = q.recombine_claims(&lifted(&[128]));
    assert_eq!(only, Fp::from_element(0));
}

#[test]
fn shapes_and_description() {
    let q = minimal();
    let shapes = vec![vec![2usize, 3], vec![7]];
    assert_eq!(q.output_shapes(&shapes, PaddingMode::NoPadding), shapes);
    assert_eq!(q.output_shapes(&shapes, PaddingMode::Padding), shapes);
    assert_eq!(OpInfo::num_outputs(&q, 1), 1);
    assert!(OpInfo::is_provable(&q));
    assert_eq!(q.offset_bits(), 8);
    assert_eq!(q.describe(), "Requant: shift: 8, offset: 2^8");
    assert_eq!(q.pad_node(), q);
    let ctx = RequantCtx { requant: q, poly_id: 3, num_vars: 4 };
    assert_eq!(ctx.describe(), "Requant ctx: shift: 8, offset: 2^8");
    assert_eq!(ctx.output_shapes(&shapes, PaddingMode::Padding), shapes);
    assert_eq!(OpInfo::num_outputs(&ctx, 2), 2);
    assert!(OpInfo::is_provable(&ctx));
    assert_eq!(Requant::new(300, 5, 4).offset_bits(), 9);
    assert_eq!(q.commit_info(3), vec![None]);
    let layer = LayerCtx::Requant(ctx);
    assert_eq!(layer.output_shapes(&shapes, PaddingMode::NoPadding), Ok(shapes.clone()));
    assert_eq!(layer.describe(), Ok(String::from("Requant ctx: shift: 8, offset: 2^8")));
    assert_eq!(LayerCtx::Dense.describe(), Err(LayerError::Unsupported));
    assert_eq!(
        LayerCtx::Dense.output_shapes(&shapes, PaddingMode::NoPadding),
        Err(LayerError::Unsupported)
    );
}

#[test]
fn step_info_counts_variables_and_asks_for_the_range_table() {
    let q = minimal();
    let aux = ContextAux { tables: vec![], last_output_shape: vec![vec![3, 5], vec![8, 4]] };
    let (ctx, aux) = q.step_info(9, aux).unwrap();
    assert_eq!(ctx, LayerCtx::Requant(RequantCtx { requant: q, poly_id: 9, num_vars: 5 }));
    assert_eq!(aux.tables, vec![TableType::Range]);
    assert_eq!(aux.last_output_shape, vec![vec![3, 5], vec![8, 4]]);
    let (_, again) = q.step_info(10, aux).unwrap();
    assert_eq!(again.tables, vec![TableType::Range]);
    let uneven = ContextAux { tables: vec![], last_output_shape: vec![vec![3, 5], vec![8, 8]] };
    assert_eq!(q.step_info(9, uneven).err(), Some(LayerError::Shape));
}

fn claim(point: &[i128], eval: i128) -> Claim<Fp> {
    Claim::new(lifted(point), Fp::from_element(eval))
}

#[test]
fn prover_and_verifier_derive_the_same_claims() {
    let q = minimal();
    let ctx = RequantCtx { requant: q, poly_id: 1, num_vars: 2 };
    let last = claim(&[3, 4], 77);
    let lookups = vec![claim(&[9, 8], 127), claim(&[9, 8], 224)];
    let proved = q.prove(&ctx, &vec![&last], &lookups).unwrap();
    assert_eq!(proved.input_claims.len(), 1);
    assert_eq!(proved.input_claims[0].point, lifted(&[9, 8]));
    assert_eq!(proved.input_claims[0].eval, Fp::from_element(-32));
    assert_eq!(proved.accumulated.len(), 2);
    assert_eq!(proved.accumulated[0].point, lifted(&[3, 4]));
    assert_eq!(proved.accumulated[0].eval, Fp::from_element(77));
    assert_eq!(proved.accumulated[1].point, lifted(&[9, 8]));
    assert_eq!(proved.accumulated[1].eval, Fp::from_element(-1));

    let proof = RequantProof { lookup_claims: lookups };
    let challenges = Some((Fp::new(5), Fp::new(6)));
    let verified = ctx.verify(&proof, &[&last], challenges).unwrap();
    assert_eq!(verified.input_claims[0].point, proved.input_claims[0].point);
    assert_eq!(verified.input_claims[0].eval, proved.input_claims[0].eval);
    assert_eq!(verified.accumulated[1].eval, proved.accumulated[1].eval);
    let through = LayerCtx::Requant(ctx)
        .verify(&LayerProof::Requant(proof), &[&last], challenges)
        .unwrap();
    assert_eq!(through.input_claims[0].eval, Fp::from_element(-32));
    assert_eq!(ctx.num_instances(), 3);
}

#[test]
fn steps_fail_without_lookup_claims_or_challenges() {
    let q = minimal();
    let ctx = RequantCtx { requant: q, poly_id: 1, num_vars: 2 };
    let last = claim(&[3, 4], 77);
    assert_eq!(q.prove_step(&last, &[], &ctx).err(), Some(LayerError::NoClaims));
    let empty = RequantProof { lookup_claims: vec![] };
    assert_eq!(ctx.verify_requant(&last, &empty).err(), Some(LayerError::NoClaims));
    let proof = RequantProof { lookup_claims: vec![claim(&[1], 128), claim(&[1], 0)] };
    assert_eq!(ctx.verify(&proof, &[&last], None).err(), Some(LayerError::MissingChallenges));
}

#[test]
fn variant_mismatched_verification() {
    let q = minimal();
    let ctx = LayerCtx::Requant(RequantCtx { requant: q, poly_id: 1, num_vars: 2 });
    let last = claim(&[3, 4], 77);
    let challenges = Some((Fp::new(5), Fp::new(6)));
    assert_eq!(
        ctx.verify(&LayerProof::Dense, &[&last], challenges).err(),
        Some(LayerError::VariantMismatch)
    );
    assert_eq!(
        ctx.verify(&LayerProof::Dense, &[&last], None).err(),
        Some(LayerError::VariantMismatch)
    );
    let proof = LayerProof::Requant(RequantProof { lookup_claims: vec![claim(&[1], 128)] });
    assert_eq!(
        LayerCtx::Dense.verify(&proof, &[&last], challenges).err(),
        Some(LayerError::VariantMismatch)
    );
    assert_eq!(
        LayerCtx::Pooling.verify(&LayerProof::Pooling, &[&last], challenges).err(),
        Some(LayerError::Unsupported)
    );
    assert!(!LayerCtx::Flatten.is_provable());
    assert!(ctx.is_provable());
    assert_eq!(ctx.num_outputs(1), 1);
}

#[test]
fn parameters_are_checked() {
    assert!(minimal().is_valid());
    assert!(Requant::new(0, 1, 2).is_valid());
    assert!(Requant::new(1 << 40, 63, 1 << 20).is_valid());
    assert!(!Requant::new(128, 0, 256).is_valid());
    assert!(!Requant::new(128, 64, 256).is_valid());
    assert!(!Requant::new(128, 8, 1).is_valid());
    assert!(!Requant::new(128, 8, 0).is_valid());
    assert!(!Requant::new(128, 8, 255).is_valid());
    assert!(!Requant::new(128, 8, 257).is_valid());
    assert!(!Requant::new(usize::MAX / 2 + 1, 8, 256).is_valid());
    let q = minimal();
    assert!(q.admits(-256));
    assert!(!q.admits(-257));
    assert!(q.admits(i128::MAX - 256));
    assert!(!q.admits(i128::MAX - 255));
    assert!(q.admits_all(&[0, -256, 5]));
    assert!(!q.admits_all(&[0, -257, 5]));
    assert!(!q.admits_all(&[]));
    assert!(Fp::new(7).is_reduced());
    assert!(!Fp { value: MODULUS }.is_reduced());
    assert!(claim(&[1, 2], 3).is_reduced());
    assert!(!Claim::new(vec![Fp { value: u64::MAX }], Fp::new(1)).is_reduced());
    assert!(!Claim::new(vec![], Fp { value: u64::MAX }).is_reduced());
}

#[test]
fn boundary_inputs() {
    let q = minimal();
    // the least admissible input: nothing is left after the offset
    assert_eq!(q.apply(&-256), RequantResult::InRange(-1));
    assert_eq!(q.decompose(-256, true), vec![127, 0, 0]);
    assert_eq!(q.apply(&-1), RequantResult::InRange(-1));
    assert_eq!(q.apply(&255), RequantResult::InRange(0));
    assert_eq!(q.apply(&256), RequantResult::InRange(1));
    // the ends of the output domain
    assert_eq!(q.apply(&(127 * 256 + 255)), RequantResult::InRange(127));
    assert_eq!(q.apply(&(128 * 256)), RequantResult::OutOfRange(128));
    let big = i128::MAX - 256;
    let cols = q.decompose(big, true);
    assert_eq!(cols, vec![(i128::MAX >> 8) - 1 + 128, 0, 255]);
    assert_eq!(q.recombine_claims(&lifted(&cols)), Fp::from_element(big));
    let wide = Requant::new(5, 63, 2);
    assert_eq!(wide.num_columns(), 64);
    assert_eq!(wide.apply(&((1 << 63) + 3)), RequantResult::OutOfRange(1));
    let cols = wide.decompose(7, false);
    assert_eq!(cols.len(), 64);
    // 7 + 10 = 17 = 0b10001
    assert_eq!(cols[59..], [1, 0, 0, 0, 1]);
    assert!(cols[..59].iter().all(|c| *c == 0));
}
