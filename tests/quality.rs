use yara_atoms::quality::{atom_quality, masked_atom_quality};

#[allow(non_snake_case)]
#[test]
fn test_atom_quality() {
    let q_01 = atom_quality(&[0x01]);
    let q_0001 = atom_quality(&[0x00, 0x01]);
    let q_000001 = atom_quality(&[0x00, 0x00, 0x01]);
    let q_0102 = atom_quality(&[0x01, 0x02]);
    let q_000102 = atom_quality(&[0x00, 0x01, 0x02]);
    let q_010203 = atom_quality(&[0x01, 0x02, 0x03]);
    let q_00000000 = atom_quality(&[0x00, 0x00, 0x00, 0x00]);
    let q_00000001 = atom_quality(&[0x00, 0x00, 0x00, 0x01]);
    let q_00000102 = atom_quality(&[0x00, 0x00, 0x01, 0x02]);
    let q_00010203 = atom_quality(&[0x00, 0x01, 0x02, 0x03]);
    let q_01020304 = atom_quality(&[0x01, 0x02, 0x03, 0x04]);
    let q_01010101 = atom_quality(&[0x01, 0x01, 0x01, 0x01]);
    let q_01020102 = atom_quality(&[0x01, 0x02, 0x01, 0x02]);
    let q_01020000 = atom_quality(&[0x01, 0x02, 0x00, 0x00]);
    let q_ffffffff = atom_quality(&[0xff, 0xff, 0xff, 0xff]);
    let q_cccccccc = atom_quality(&[0xcc, 0xcc, 0xcc, 0xcc]);
    let q_90909090 = atom_quality(&[0x90, 0x90, 0x90, 0x90]);
    let q_20202020 = atom_quality(&[0x20, 0x20, 0x20, 0x20]);
    let q_aa = atom_quality(b"aa");
    let q_ab = atom_quality(b"ab");
    let q_abcd = atom_quality(b"abcd");
    let q_ABCD = atom_quality(b"ABCD");
    let q_abc_dot = atom_quality(b"abc.");

    let q_01x203 = masked_atom_quality(&[0x01, 0x02, 0x03], &[0xff, 0x0f, 0xff]);
    let q_010x03 = masked_atom_quality(&[0x01, 0x02, 0x03], &[0xff, 0xf0, 0xff]);
    let q_01xx03 = masked_atom_quality(&[0x01, 0x02, 0x03], &[0xff, 0x00, 0xff]);
    let q_010x0x = masked_atom_quality(&[0x01, 0x02, 0x03], &[0xff, 0xf0, 0xf0]);
    let q_0102xx04 =
        masked_atom_quality(&[0x01, 0x02, 0x03, 0x04], &[0xff, 0xff, 0x00, 0xff]);

    assert!(q_00000001 > q_00000000);
    assert!(q_00000001 > q_000001);
    assert!(q_000001 > q_0001);
    assert!(q_00000102 > q_00000001);
    assert!(q_00010203 > q_00000102);
    assert!(q_01020304 > q_00010203);
    assert!(q_000102 > q_000001);
    assert!(q_00010203 > q_010203);
    assert!(q_010203 > q_0102);
    assert!(q_010203 > q_00000000);
    assert!(q_0102 > q_01);
    assert!(q_01x203 > q_0102);
    assert!(q_01x203 > q_0001);
    assert!(q_01x203 < q_010203);
    assert_eq!(q_01x203, q_010x03);
    assert_eq!(q_cccccccc, q_ffffffff);
    assert_eq!(q_cccccccc, q_90909090);
    assert_eq!(q_cccccccc, q_20202020);
    assert!(q_01xx03 <= q_0102);
    assert!(q_01xx03 < q_010x03);
    assert!(q_01xx03 < q_010203);
    assert!(q_010x0x > q_01);
    assert!(q_010x0x < q_010203);
    assert_eq!(q_01020000, q_0102xx04);
    assert!(q_01020102 > q_01020000);
    assert!(q_01020102 > q_01010101);
    assert!(q_01020304 > q_01020102);
    assert!(q_01020102 > q_010203);
    assert!(q_01020304 > q_abcd);
    assert!(q_010203 < q_abcd);
    assert_eq!(q_abcd, q_ABCD);
    assert!(q_abc_dot > q_abcd);
    assert!(q_ab > q_01);
    assert!(q_aa > q_01);
    assert!(q_ab > q_aa);

    assert!(q_ab > q_000001);
}

#[test]
fn exact_scores_of_known_atoms() {
    assert_eq!(atom_quality(&[0x01, 0x02]), 44);
    assert_eq!(atom_quality(&[0x61, 0x62]), 40);
    assert_eq!(atom_quality(&[0x61, 0x61]), 38);
    assert_eq!(atom_quality(&[0x00, 0x01]), 30);
    assert_eq!(atom_quality(&[0x01]), 22);
    assert_eq!(atom_quality(b"abcd"), 80);
    assert_eq!(atom_quality(&[0x00, 0x00, 0x00, 0x01]), 42);
    assert_eq!(atom_quality(&[0x00, 0x00, 0x00, 0x00]), -16);
    assert_eq!(atom_quality(&[0x20, 0x20, 0x20, 0x20]), 8);
}

#[test]
fn exact_scores_of_masked_atoms() {
    assert_eq!(masked_atom_quality(&[0x01, 0x02, 0x03], &[0xff, 0x0f, 0xff]), 48);
    assert_eq!(masked_atom_quality(&[0x01, 0x02, 0x03], &[0xff, 0x00, 0xff]), 36);
    assert_eq!(
        masked_atom_quality(&[0x01, 0x02, 0x03, 0x04], &[0xff, 0x00, 0x0f, 0xff]),
        40
    );
    // A mask with three known bits: 2 * 3 - 5.
    assert_eq!(masked_atom_quality(&[0x07], &[0x07]), 1);
}

#[test]
fn empty_atom_scores_zero() {
    assert_eq!(atom_quality(&[]), 0);
    assert_eq!(masked_atom_quality(&[], &[]), 0);
}

#[test]
fn fully_masked_atom_has_no_distinct_bytes() {
    assert_eq!(masked_atom_quality(&[0x00, 0x00], &[0x00, 0x00]), -16);
    // A wildcard beside one known weak byte: the repeat penalty applies.
    assert_eq!(masked_atom_quality(&[0x00, 0x00], &[0xff, 0x00]), 6 - 8 - 20);
}

#[test]
fn shorter_input_sets_the_atom_length() {
    assert_eq!(masked_atom_quality(&[0x01, 0x02, 0x03], &[0xff, 0xff]), 44);
    assert_eq!(masked_atom_quality(&[0x01, 0x02], &[0xff, 0xff, 0xff]), 44);
}

#[test]
fn swapping_two_bytes_of_one_class_keeps_the_score() {
    assert_eq!(atom_quality(b"ab"), atom_quality(b"ba"));
    assert_eq!(atom_quality(&[0x20, 0xcc]), atom_quality(&[0xcc, 0x20]));
    assert_eq!(atom_quality(&[0x01, 0x02]), atom_quality(&[0x02, 0x01]));
}

#[test]
fn appending_a_new_known_byte_raises_the_score() {
    assert!(atom_quality(&[0x00, 0x00, 0x00, 0x01]) > atom_quality(&[0x00, 0x00, 0x01]));
    assert!(atom_quality(&[0x01, 0x02, 0x03]) > atom_quality(&[0x01, 0x02]));
    assert!(atom_quality(&[0x00, 0x00, 0x01]) > atom_quality(&[0x00, 0x00]));
    assert!(atom_quality(b"abc") > atom_quality(b"ab"));
}

#[test]
fn repeated_common_bytes_are_penalised() {
    assert!(atom_quality(&[0x00, 0x00, 0x00, 0x00]) < atom_quality(&[0x00, 0x00, 0x00, 0x01]));
    let q = atom_quality(&[0xcc; 4]);
    assert_eq!(q, atom_quality(&[0xff; 4]));
    assert_eq!(q, atom_quality(&[0x90; 4]));
    assert_eq!(q, atom_quality(&[0x20; 4]));
    assert_eq!(atom_quality(&[0xff; 7]), 14);
}

#[test]
fn half_known_byte_lies_between_known_and_wildcard() {
    let full = masked_atom_quality(&[0x01, 0x02, 0x03], &[0xff, 0xff, 0xff]);
    let low = masked_atom_quality(&[0x01, 0x02, 0x03], &[0xff, 0x0f, 0xff]);
    let high = masked_atom_quality(&[0x01, 0x02, 0x03], &[0xff, 0xf0, 0xff]);
    let none = masked_atom_quality(&[0x01, 0x02, 0x03], &[0xff, 0x00, 0xff]);
    assert_eq!(low, high);
    assert!(low < full);
    assert!(none < low);
    assert_eq!(full, atom_quality(&[0x01, 0x02, 0x03]));
}

#[test]
fn scoring_twice_gives_the_same_score() {
    let a = masked_atom_quality(&[0x41, 0x00, 0x41], &[0xff, 0x0f, 0xff]);
    let other = atom_quality(&[0x01, 0x02, 0x03, 0x04]);
    let b = masked_atom_quality(&[0x41, 0x00, 0x41], &[0xff, 0x0f, 0xff]);
    assert_eq!(a, b);
    assert_eq!(other, atom_quality(&[0x01, 0x02, 0x03, 0x04]));
}
