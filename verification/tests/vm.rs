//! The pure part of the instructions.
use zkm_core_executor::keccak::{keccak_sponge, keccakf};
use zkm_core_executor::opcode::Opcode;
use zkm_core_executor::sha256::{sha256_compress, sha256_extend_word};
use zkm_core_executor::vm::{
    align_size, alu_compute, branch_taken, branch_target, bump_clk_high_if_need, condmov_result,
    ext, fcntl_result, ins, jump_direct_result, jump_jr_result, load_value, madd, maddu, msub,
    msubu, read_result, resolve_brk, sext, sign_extend, store_value, teq, wsbh,
};
use zkm_core_executor::{OptionU32, OptionValTag};

#[test]
fn arithmetic() {
    assert_eq!(alu_compute(Opcode::ADD, 0xffff_ffff, 2), Ok((1, 0)));
    assert_eq!(alu_compute(Opcode::SUB, 1, 2), Ok((0xffff_ffff, 0)));
    assert_eq!(alu_compute(Opcode::MUL, 0x00007e00, 0xb6db6db7), Ok((0x00001200, 0)));
    assert_eq!(alu_compute(Opcode::MULTU, 0xffff_ffff, 0xffff_ffff), Ok((1, 0xffff_fffe)));
    assert_eq!(alu_compute(Opcode::MULT, 0xffff_ffff, 0xffff_ffff), Ok((1, 0)));
    assert_eq!(alu_compute(Opcode::DIV, 0xffff_fff9, 2), Ok((0xffff_fffd, 0xffff_ffff)));
    assert_eq!(alu_compute(Opcode::DIVU, 7, 2), Ok((3, 1)));
    assert_eq!(alu_compute(Opcode::MOD, 0xffff_ffff, 3), Ok((0xffff_ffff, 0)));
    assert_eq!(alu_compute(Opcode::MODU, 10, 3), Ok((1, 0)));
    assert!(alu_compute(Opcode::DIVU, 7, 0).is_err());
    assert_eq!(alu_compute(Opcode::NOR, 10, 3), Ok((!11, 0)));
    assert_eq!(alu_compute(Opcode::SRA, 0x80000000, 7), Ok((0xff000000, 0)));
    assert_eq!(alu_compute(Opcode::SLL, 0x21212121, 0xffffffe1), Ok((0x42424242, 0)));
    assert_eq!(alu_compute(Opcode::ROR, 0x12345678, 4), Ok((0x81234567, 0)));
    assert_eq!(alu_compute(Opcode::SLT, 0xffff_ffff, 0), Ok((1, 0)));
    assert_eq!(alu_compute(Opcode::SLTU, 0xffff_ffff, 0), Ok((0, 0)));
    assert_eq!(alu_compute(Opcode::CLZ, 0xffff, 0), Ok((16, 0)));
    assert_eq!(alu_compute(Opcode::CLO, 0xfffe_0000, 0), Ok((15, 0)));
}

#[test]
fn control() {
    assert!(branch_taken(Opcode::BEQ, 3, 3));
    assert!(!branch_taken(Opcode::BNE, 3, 3));
    assert!(branch_taken(Opcode::BLTZ, 0xffff_ffff, 0));
    assert!(branch_taken(Opcode::BLEZ, 0, 0));
    assert!(branch_taken(Opcode::BGTZ, 1, 0));
    assert!(branch_taken(Opcode::BGEZ, 0, 0));
    assert_eq!(branch_target(12, 0xffff_fffc), 8);
    assert_eq!(jump_jr_result(8, 100), (12, 100));
    assert_eq!(jump_direct_result(4, 4), (8, 8));
    assert_eq!(condmov_result(Opcode::MEQ, 1, 2, 0), 2);
    assert_eq!(condmov_result(Opcode::MNE, 1, 2, 0), 1);
}

#[test]
fn fields() {
    assert_eq!(wsbh(0x11223344), 0x22114433);
    assert_eq!(ext(100, 200), Ok((100u32 & ((1u32 << 15) - 1)) >> 8));
    assert_eq!(ins(100, 200, 0), Ok((100 & !1) | (200 & 1)));
    assert_eq!(sext(0x80, 0), 0xffff_ff80);
    assert_eq!(sext(0x8000, 1), 0xffff_8000);
    assert_eq!(sign_extend::<16>(0xffff), 0xffff_ffff);
    assert!(teq(1, 1).is_err());
    assert!(teq(1, 2).is_ok());
    assert_eq!(maddu(300, 400, 200, 100), (120200, 100));
    assert_eq!(msubu(300, 400, 200, 100), (200u32.wrapping_sub(120000), 99));
    assert_eq!(madd(0xffff_ffff, 1, 0, 0), (0xffff_ffff, 0xffff_ffff));
    assert_eq!(msub(0xffff_ffff, 1, 0, 0), (1, 0));
}

#[test]
fn loads_and_stores() {
    assert_eq!(load_value(Opcode::LB, 1, 0x12348765, 0), Ok(0xffff_ff87));
    assert_eq!(load_value(Opcode::LHU, 2, 0x12348765, 0), Ok(0x1234));
    assert_eq!(load_value(Opcode::LWL, 1, 0x12345678, 0xaabbccdd), Ok(0x5678ccdd));
    assert_eq!(load_value(Opcode::LWR, 1, 0x12345678, 0xaabbccdd), Ok(0xaa123456));
    assert!(load_value(Opcode::LH, 1, 0, 0).is_err());
    assert_eq!(store_value(Opcode::SB, 1, 0x12348725, 0x38276525), Ok(0x12342525));
    assert_eq!(store_value(Opcode::SWL, 1, 0xaabbccdd, 0x12345678), Ok(0xaabb1234));
    assert_eq!(store_value(Opcode::SWR, 2, 0xaabbccdd, 0x12345678), Ok(0x5678ccdd));
    assert!(store_value(Opcode::SW, 2, 0, 0).is_err());
}

#[test]
fn clock_windows_are_crossed_early() {
    assert_eq!(bump_clk_high_if_need(1, 100), 1);
    let near: u64 = 0x100_0000 - 5;
    assert_eq!(bump_clk_high_if_need(near, 100) / 0x100_0000, 1);
}

#[test]
fn system_calls_without_a_system() {
    assert_eq!(fcntl_result(0, 3), (0, 0));
    assert_eq!(read_result(0), (0, 0));
    assert_eq!(align_size(1), Ok(4096));
    assert_eq!(align_size(4096), Ok(4096));
    assert_eq!(resolve_brk(0x1000, 0x1000, 0x2000), Ok(0x2000));
    assert_eq!(resolve_brk(0x1000, 0x1000, 0), Ok(0x1000));
}

#[test]
fn sha256_of_the_empty_message() {
    let h = vec![
        0x6a09e667, 0xbb67ae85, 0x3c6ef372, 0xa54ff53a, 0x510e527f, 0x9b05688c, 0x1f83d9ab,
        0x5be0cd19,
    ];
    let mut w = vec![0u32; 64];
    w[0] = 0x80000000;
    for i in 16..64 {
        w[i] = sha256_extend_word(w[i - 15], w[i - 2], w[i - 16], w[i - 7]);
    }
    assert_eq!(
        sha256_compress(&h, &w),
        vec![
            0xe3b0c442, 0x98fc1c14, 0x9afbf4c8, 0x996fb924, 0x27ae41e4, 0x649b934c, 0xa495991b,
            0x7852b855
        ]
    );
}

#[test]
fn keccak_permutes() {
    let mut state = vec![0u64; 25];
    keccakf(&mut state);
    assert_eq!(state[0], 0xf1258f7940e1dde7);
    assert_eq!(state[24], 0xeaf1ff7b5ceca249);
    let absorbed = keccak_sponge(&vec![0; 34]);
    assert_eq!(absorbed, state);
}

#[test]
fn optional_words_have_a_tag() {
    let present = OptionU32::from(Some(3));
    assert_eq!((present.tag, present.value), (OptionValTag::Present, 3));
    let absent = OptionU32::from(None);
    assert_eq!((absent.tag, absent.value), (OptionValTag::Absent, 0));
}
