use rand::rngs::StdRng;
use rand::SeedableRng;
use raytracer::{color_world_step, ImageTexture, Perlin, Shade, MAX_DEPTH};

#[test]
fn no_recursion_at_max_depth() {
    assert_eq!(MAX_DEPTH, 60);
    assert_eq!(color_world_step(MAX_DEPTH, true, true, true), Shade::Emitted);
    assert_eq!(color_world_step(MAX_DEPTH, true, true, false), Shade::Emitted);
    assert_eq!(color_world_step(MAX_DEPTH + 5, true, true, true), Shade::Emitted);
    assert_eq!(color_world_step(MAX_DEPTH - 1, true, true, true), Shade::EmittedPlusScattered);
    assert_eq!(color_world_step(0, true, true, false), Shade::EmittedPlusScattered);
}

#[test]
fn absorbed_rays_return_only_emission() {
    assert_eq!(color_world_step(0, true, false, true), Shade::Emitted);
    assert_eq!(color_world_step(30, true, false, false), Shade::Emitted);
}

#[test]
fn misses_see_sky_or_black() {
    assert_eq!(color_world_step(0, false, false, true), Shade::Sky);
    assert_eq!(color_world_step(0, false, false, false), Shade::Black);
    assert_eq!(color_world_step(MAX_DEPTH, false, true, false), Shade::Black);
}

/// An integrator loop over the decision alone, for a material that always
/// scatters: it must stop after `MAX_DEPTH + 1` traced rays.
#[test]
fn always_scattering_material_terminates() {
    let mut depth = 0;
    let mut traced = 0;
    loop {
        traced += 1;
        match color_world_step(depth, true, true, true) {
            Shade::EmittedPlusScattered => depth += 1,
            _ => break,
        }
    }
    assert_eq!(traced, 61);
}

fn is_perm(v: &[usize]) -> bool {
    let mut s = v.to_vec();
    s.sort();
    s == (0..256).collect::<Vec<usize>>()
}

#[test]
fn perlin_tables_are_permutations() {
    let mut rng = StdRng::seed_from_u64(42);
    let p = Perlin::new(&mut rng);
    assert!(is_perm(&p.perm_x) && is_perm(&p.perm_y) && is_perm(&p.perm_z));
    assert!(p.perm_x != (0..256).collect::<Vec<usize>>());
    let q = Perlin::perlin_generate_perm(&mut rng);
    assert!(is_perm(&q));
}

#[test]
fn permute_moves_only_the_prefix() {
    let mut rng = StdRng::seed_from_u64(7);
    let mut v: Vec<usize> = (0..20).collect();
    Perlin::permute(&mut v, 10, &mut rng);
    assert_eq!(&v[10..], &(10..20).collect::<Vec<usize>>()[..]);
    let mut head = v[..10].to_vec();
    head.sort();
    assert_eq!(head, (0..10).collect::<Vec<usize>>());
    let mut w: Vec<usize> = vec![4, 4, 1];
    Perlin::permute(&mut w, 0, &mut rng);
    assert_eq!(w, vec![4, 4, 1]);
}

#[test]
fn lattice_index_combines_the_three_tables() {
    let mut rng = StdRng::seed_from_u64(3);
    let p = Perlin::new(&mut rng);
    let (i, j, k) = (5usize, 300usize, 1023usize);
    let want = p.perm_x[i & 255] ^ p.perm_y[j & 255] ^ p.perm_z[k & 255];
    assert_eq!(p.lattice_index(i, j, k), want);
    assert!(want < 256);
    assert_eq!(p.lattice_index(5 + 256, 300, 1023), want);
    assert_eq!(p.lattice_index(usize::MAX, 0, 0), p.perm_x[255] ^ p.perm_y[0] ^ p.perm_z[0]);
}

#[test]
fn image_needs_three_bytes_per_texel() {
    assert!(ImageTexture::from_rgb(2, 2, vec![0; 11]).is_none());
    assert!(ImageTexture::from_rgb(2, 2, vec![0; 13]).is_none());
    assert!(ImageTexture::from_rgb(0, 2, vec![]).is_none());
    assert!(ImageTexture::from_rgb(2, 0, vec![]).is_none());
    assert!(ImageTexture::from_rgb(usize::MAX, 2, vec![]).is_none());
    let t = ImageTexture::from_rgb(2, 2, vec![0; 12]).unwrap();
    assert_eq!((t.nx, t.ny, t.data.len()), (2, 2, 12));
}

#[test]
fn texel_reads_and_clamps() {
    let data: Vec<u8> = (0..18).collect();
    let t = ImageTexture::from_rgb(3, 2, data).unwrap();
    assert_eq!(t.texel(0, 0), (0, 1, 2));
    assert_eq!(t.texel(2, 0), (6, 7, 8));
    assert_eq!(t.texel(1, 1), (12, 13, 14));
    assert_eq!(t.texel(9, 0), (6, 7, 8));
    assert_eq!(t.texel(0, 9), (9, 10, 11));
    assert_eq!(t.texel(usize::MAX, usize::MAX), (15, 16, 17));
}
