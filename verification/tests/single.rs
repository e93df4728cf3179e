use rbx_terrain::Single;
use rbx_terrain::TerrainVec;
use rbx_terrain::Vector3;

fn single(value: f32) -> Single {
    Single::from_bits(value.to_bits())
}

fn scaled(bits: u32) -> u8 {
    (f32::from_bits(bits) * 255.0) as u8
}

#[test]
fn patterns_are_kept() {
    assert_eq!(Single::from_bits(0x3F00_0000).to_bits(), 0.5f32.to_bits());
    assert_eq!(Single::zero().to_bits(), 0.0f32.to_bits());
    assert_eq!(Single::one().to_bits(), 1.0f32.to_bits());
}

#[test]
fn levels_of_known_fractions() {
    assert_eq!(single(0.0).level(), 0);
    assert_eq!(single(1.0).level(), 255);
    assert_eq!(single(0.5).level(), 127);
    assert_eq!(single(0.25).level(), 63);
    assert_eq!(single(0.2).level(), 51);
    assert_eq!(single(0.999).level(), 254);
    assert_eq!(single(0.003).level(), 0);
    assert_eq!(single(0.004).level(), 1);
    assert_eq!(single(-0.0).level(), 0);
    assert_eq!(single(-0.5).level(), 0);
    assert_eq!(single(2.0).level(), 255);
    assert_eq!(single(1.0e30).level(), 255);
    assert_eq!(single(f32::INFINITY).level(), 255);
    assert_eq!(single(f32::NEG_INFINITY).level(), 0);
    assert_eq!(single(f32::NAN).level(), 0);
    assert_eq!(single(f32::MIN_POSITIVE).level(), 0);
}

#[test]
fn levels_follow_the_format_from_zero_to_one() {
    let mut bits: u32 = 0;
    while bits <= 0x3F80_0000 {
        assert_eq!(Single::from_bits(bits).level(), scaled(bits), "{:#x}", bits);
        bits += 521;
    }
}

#[test]
fn levels_follow_the_format_near_every_level() {
    for level in 1u32..=255 {
        let middle = (level as f32 / 255.0).to_bits();
        for bits in (middle - 400)..=(middle + 400) {
            assert_eq!(Single::from_bits(bits).level(), scaled(bits), "{:#x}", bits);
        }
    }
}

#[test]
fn levels_follow_the_format_on_every_kind_of_pattern() {
    let mut bits: u32 = 0;
    loop {
        assert_eq!(Single::from_bits(bits).level(), scaled(bits), "{:#x}", bits);
        match bits.checked_add(7919) {
            Some(next) => bits = next,
            None => break,
        }
    }
    for bits in [0x7F80_0000u32, 0x7F80_0001, 0x7FFF_FFFF, 0xFF80_0000, 0xFFFF_FFFF, 0x8000_0000] {
        assert_eq!(Single::from_bits(bits).level(), scaled(bits), "{:#x}", bits);
    }
}

#[test]
fn truncation_of_known_numbers() {
    assert_eq!(single(0.0).truncate(), 0);
    assert_eq!(single(0.99).truncate(), 0);
    assert_eq!(single(1.0).truncate(), 1);
    assert_eq!(single(1.9).truncate(), 1);
    assert_eq!(single(-1.9).truncate(), -1);
    assert_eq!(single(-0.5).truncate(), 0);
    assert_eq!(single(31.999).truncate(), 31);
    assert_eq!(single(16777216.0).truncate(), 16777216);
    assert_eq!(single(2147483648.0).truncate(), i32::MAX);
    assert_eq!(single(-2147483648.0).truncate(), i32::MIN);
    assert_eq!(single(-3.0e9).truncate(), i32::MIN);
    assert_eq!(single(f32::INFINITY).truncate(), i32::MAX);
    assert_eq!(single(f32::NEG_INFINITY).truncate(), i32::MIN);
    assert_eq!(single(f32::NAN).truncate(), 0);
}

#[test]
fn truncation_follows_the_format() {
    let mut bits: u32 = 0;
    loop {
        assert_eq!(
            Single::from_bits(bits).truncate(),
            f32::from_bits(bits) as i32,
            "{:#x}",
            bits
        );
        match bits.checked_add(6007) {
            Some(next) => bits = next,
            None => break,
        }
    }
}

#[test]
fn clamping_of_known_numbers() {
    assert_eq!(single(0.5).clamp_unit(), single(0.5));
    assert_eq!(single(-0.5).clamp_unit(), single(0.0));
    assert_eq!(single(1.5).clamp_unit(), single(1.0));
    assert_eq!(single(1.0).clamp_unit(), single(1.0));
    assert_eq!(single(0.0).clamp_unit(), single(0.0));
    assert_eq!(single(-0.0).clamp_unit(), single(-0.0));
    assert_eq!(single(f32::INFINITY).clamp_unit(), single(1.0));
    assert_eq!(single(f32::NEG_INFINITY).clamp_unit(), single(0.0));
    assert!(single(f32::NAN).clamp_unit().nan());
}

#[test]
fn clamping_and_comparisons_follow_the_format() {
    let mut bits: u32 = 0;
    loop {
        let number = f32::from_bits(bits);
        let held = Single::from_bits(bits);
        assert_eq!(held.nan(), number.is_nan(), "{:#x}", bits);
        assert_eq!(held.equals_zero(), number == 0.0, "{:#x}", bits);
        assert_eq!(held.exceeds_zero(), number > 0.0, "{:#x}", bits);
        assert_eq!(held.equals_one(), number == 1.0, "{:#x}", bits);
        assert_eq!(
            held.clamp_unit().to_bits(),
            number.clamp(0.0, 1.0).to_bits(),
            "{:#x}",
            bits
        );
        match bits.checked_add(9973) {
            Some(next) => bits = next,
            None => break,
        }
    }
}

#[test]
fn vectors_are_cut_to_whole_numbers() {
    let vector = Vector3::new(single(1.9), single(-1.9), single(0.5));
    assert_eq!(TerrainVec::from_vec3(vector), TerrainVec::new(1, -1, 0));
    let far = Vector3::new(single(1.0e12), single(-1.0e12), single(f32::NAN));
    assert_eq!(
        TerrainVec::from_vec3(far),
        TerrainVec::new(i32::MAX, i32::MIN, 0)
    );
}
