use scheme::instruction::{MemAddr, Mov, MovSd, Register};

#[test]
fn mem_addr_test() {
    let mem_addr = MemAddr::Address(0);
    assert_eq!(mem_addr.to_string(), "0x0");

    let mem_addr = MemAddr::OffsetDereference(0, Register::RAX);
    assert_eq!(mem_addr.to_string(), "0(%rax)");

    let mem_addr = MemAddr::LabelDereference(".LC".to_string(), Register::RIP);
    assert_eq!(mem_addr.to_string(), ".LC(%rip)")
}

#[test]
fn mov_instr_test() {
    let m = Mov::ImmediateToRegister(12345, Register::RAX);
    assert_eq!(m.to_string(), "movq $12345, %rax")
}

#[test]
fn float_movsd_test() {
    let m = MovSd::MemToRegister(
        MemAddr::LabelDereference("somelabel".to_string(), Register::RIP),
        Register::XMM0,
    );
    assert_eq!(m.to_string(), "movsd somelabel(%rip), %xmm0")
}

#[test]
fn rax_test() {
    let register = Register::RAX;
    assert_eq!(register.to_string(), "%rax");
}

#[test]
fn rbx_test() {
    let register = Register::RBX;
    assert_eq!(register.to_string(), "%rbx");
}

#[test]
fn rcx_test() {
    let register = Register::RCX;
    assert_eq!(register.to_string(), "%rcx");
}

#[test]
fn rdx_test() {
    let register = Register::RDX;
    assert_eq!(register.to_string(), "%rdx");
}

#[test]
fn rsi_test() {
    let register = Register::RSI;
    assert_eq!(register.to_string(), "%rsi");
}

#[test]
fn rdi_test() {
    let register = Register::RDI;
    assert_eq!(register.to_string(), "%rdi");
}

#[test]
fn rsp_test() {
    let register = Register::RSP;
    assert_eq!(register.to_string(), "%rsp");
}

#[test]
fn rbp_test() {
    let register = Register::RBP;
    assert_eq!(register.to_string(), "%rbp");
}

#[test]
fn rip_test() {
    let register = Register::RIP;
    assert_eq!(register.to_string(), "%rip");
}

#[test]
fn xmm0_test() {
    assert_eq!(Register::XMM0.to_string(), "%xmm0");
}

#[test]
fn absolute_addresses_in_hexadecimal() {
    assert_eq!(MemAddr::Address(255).to_string(), "0xff");
    assert_eq!(MemAddr::Address(0x1000).to_string(), "0x1000");
    assert_eq!(MemAddr::Address(-1).to_string(), format!("{:#x}", -1i64));
    assert_eq!(MemAddr::Address(i64::MIN).to_string(), format!("{:#x}", i64::MIN));
}

#[test]
fn negative_offsets_and_immediates() {
    assert_eq!(MemAddr::OffsetDereference(-16, Register::RBP).to_string(), "-16(%rbp)");
    assert_eq!(
        Mov::ImmediateToRegister(i64::MIN, Register::RAX).to_string(),
        "movq $-9223372036854775808, %rax"
    );
}

#[test]
fn every_move_form() {
    assert_eq!(
        Mov::RegisterToRegister(Register::RSP, Register::RBP).to_string(),
        "movq %rsp, %rbp"
    );
    assert_eq!(
        Mov::RegisterToMem(Register::RAX, MemAddr::OffsetDereference(8, Register::RSP)).to_string(),
        "movq %rax, 8(%rsp)"
    );
    assert_eq!(
        Mov::ImmediateToMem(7, MemAddr::Address(16)).to_string(),
        "movq $7, 0x10"
    );
    assert_eq!(
        Mov::MemToRegister(MemAddr::LabelDereference("LC_0".to_string(), Register::RIP), Register::RDI)
            .to_string(),
        "movq LC_0(%rip), %rdi"
    );
}
