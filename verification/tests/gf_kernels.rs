use fountain_engine::algebra::finite_field::GF256;
use fountain_operators::{
    available_kernel_kinds, default_kernel, select_kernel, selected_kernel_kind, Avx2Kernel,
    Gf256Field, GfBlockKernel, KernelKind, NeonKernel,
};

#[test]
fn selected_kernel_is_reported_in_available_set() {
    let selected = selected_kernel_kind();
    assert!(available_kernel_kinds().contains(&selected));
}

#[test]
fn portable_matches_gf256_reference() {
    let gf = GF256::new_with_primitive_polynomial(0x11D);
    let field = Gf256Field::from_gf256(&gf);
    let kernel = default_kernel();
    let mut a = vec![1u8, 2, 3, 200];
    let b = vec![4u8, 5, 6, 7];
    let mut expect = a.clone();

    for i in 0..expect.len() {
        expect[i] ^= b[i];
    }
    kernel.xor_inplace(&mut a, &b);
    assert_eq!(a, expect);

    let scalar = 7u8;
    let mut c = vec![1u8, 2, 3, 4];
    expect = c.clone();
    for x in &mut expect {
        *x = gf.mul_lookup(*x, scalar);
    }
    kernel.mul_scalar_inplace(&field, &mut c, scalar);
    assert_eq!(c, expect);

    let mut d = vec![10u8, 20, 30, 40];
    let e = vec![1u8, 2, 3, 4];
    expect = d.clone();
    for i in 0..expect.len() {
        expect[i] ^= gf.mul_lookup(scalar, e[i]);
    }
    kernel.mul_add_inplace(&field, &mut d, &e, scalar);
    assert_eq!(d, expect);

    let mut f = vec![1u8, 128, 255, 0];
    expect = f.clone();
    for x in &mut expect {
        *x = gf.mul_alpha(*x);
    }
    kernel.mul_alpha_inplace(&field, &mut f);
    assert_eq!(f, expect);
}

#[test]
fn select_kernel_matches_portable_behavior() {
    let gf = Gf256Field::new(0x11D);
    let selected = select_kernel();
    let portable = default_kernel();
    let src = vec![1u8, 2, 3, 200, 17, 31, 32, 33];

    let mut via_selected = src.clone();
    let mut via_portable = src.clone();
    selected.xor_inplace(&mut via_selected, &src);
    portable.xor_inplace(&mut via_portable, &src);
    assert_eq!(via_selected, via_portable);

    let scalar = 0x9Du8;
    selected.mul_scalar_inplace(&gf, &mut via_selected, scalar);
    portable.mul_scalar_inplace(&gf, &mut via_portable, scalar);
    assert_eq!(via_selected, via_portable);
}

fn check_matches_portable<K: GfBlockKernel>(kernel: &K) {
    let gf = GF256::new_with_primitive_polynomial(0x11D);
    let field = Gf256Field::from_gf256(&gf);
    let portable = default_kernel();

    for len in [1usize, 3, 15, 16, 31, 32, 33, 64, 1024] {
        let mut a = vec![0u8; len];
        let b = vec![7u8; len];
        let mut rng = 1u64;
        for x in a.iter_mut() {
            rng = rng.wrapping_mul(6364136223846793005).wrapping_add(1);
            *x = (rng >> 33) as u8;
        }

        let mut p = a.clone();
        let mut s = a.clone();
        portable.xor_inplace(&mut p, &b);
        kernel.xor_inplace(&mut s, &b);
        assert_eq!(p, s, "xor len={len}");

        let scalar = 0x9Du8;
        p = a.clone();
        s = a.clone();
        portable.mul_scalar_inplace(&field, &mut p, scalar);
        kernel.mul_scalar_inplace(&field, &mut s, scalar);
        assert_eq!(p, s, "mul_scalar len={len}");

        p = a.clone();
        s = a.clone();
        portable.mul_add_inplace(&field, &mut p, &b, scalar);
        kernel.mul_add_inplace(&field, &mut s, &b, scalar);
        assert_eq!(p, s, "mul_add len={len}");

        p = a.clone();
        s = a.clone();
        portable.mul_alpha_inplace(&field, &mut p);
        kernel.mul_alpha_inplace(&field, &mut s);
        assert_eq!(p, s, "mul_alpha len={len}");
    }
}

#[test]
fn avx2_matches_portable_gf256() {
    check_matches_portable(&Avx2Kernel);
}

#[test]
fn neon_matches_portable_gf256() {
    check_matches_portable(&NeonKernel);
}

#[test]
fn kernel_kinds_dispatch_and_report_simd() {
    assert!(!KernelKind::Portable.is_simd());
    assert!(KernelKind::Avx2.is_simd());
    assert!(KernelKind::Neon.is_simd());
    assert_eq!(selected_kernel_kind(), KernelKind::Portable);
    assert_eq!(available_kernel_kinds(), vec![KernelKind::Portable]);
    check_matches_portable(&KernelKind::Avx2);
    check_matches_portable(&KernelKind::Neon);
    check_matches_portable(&KernelKind::Portable);
}

#[test]
fn field_products_match_reference_tables() {
    let gf = GF256::new_with_primitive_polynomial(0x11D);
    let field = Gf256Field::new(0x11D);
    assert_eq!(field.polynomial(), 0x11D);
    let kernel = default_kernel();
    // 2 * 3 = 6, 7 * 11 = 49, 255 * 255 = 226 modulo x^8 + x^4 + x^3 + x^2 + 1.
    let mut v = vec![3u8, 11, 255];
    kernel.mul_scalar_inplace(&field, &mut v, 2);
    assert_eq!(v, vec![6, 22, gf.mul_lookup(255, 2)]);
    let mut w = vec![11u8];
    kernel.mul_scalar_inplace(&field, &mut w, 7);
    assert_eq!(w, vec![49]);
    let mut z = vec![255u8];
    kernel.mul_scalar_inplace(&field, &mut z, 255);
    assert_eq!(z, vec![226]);
    // Scaling by zero and one.
    let mut u = vec![9u8, 10];
    kernel.mul_scalar_inplace(&field, &mut u, 1);
    assert_eq!(u, vec![9, 10]);
    kernel.mul_scalar_inplace(&field, &mut u, 0);
    assert_eq!(u, vec![0, 0]);
    // Alpha: 0x80 * x = x^8 = x^4 + x^3 + x^2 + 1 = 0x1D.
    let mut a = vec![0x80u8, 1, 0];
    kernel.mul_alpha_inplace(&field, &mut a);
    assert_eq!(a, vec![0x1D, 2, 0]);
}

#[test]
fn products_are_commutative_for_every_field() {
    for pp in [0x11Du16, 0x12B, 0x1F5] {
        let gf = GF256::new_with_primitive_polynomial(pp);
        let field = Gf256Field::from_gf256(&gf);
        assert_eq!(field.polynomial(), pp);
        let kernel = default_kernel();
        for s in [2u8, 3, 0x53, 0xCA, 0xFF] {
            let mut by_scalar: Vec<u8> = (0..=255u8).collect();
            kernel.mul_scalar_inplace(&field, &mut by_scalar, s);
            for x in 0..=255u8 {
                assert_eq!(by_scalar[x as usize], gf.mul_lookup(s, x));
            }
        }
    }
}

#[test]
fn field_from_tables_keeps_their_polynomial() {
    for pp in [0x11Du16, 0x12B, 0x1F5] {
        let gf = GF256::new_with_primitive_polynomial(pp);
        assert_eq!(Gf256Field::from_gf256(&gf).polynomial(), pp);
    }
}
