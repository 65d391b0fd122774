use riscv_paging::arch::{ArchPrivilegeLevel, ExceptionType, InterruptType, SCause, StatusReg};

#[test]
fn status_register_fields() {
    let mut s = StatusReg(0);
    s.set_m_prev_pl(ArchPrivilegeLevel::Supervisor);
    assert_eq!(s.0, 1 << 11);
    assert_eq!(s.m_prev_pl(), ArchPrivilegeLevel::Supervisor);
    s.set_m_prev_pl(ArchPrivilegeLevel::Machine);
    assert_eq!(s.m_prev_pl(), ArchPrivilegeLevel::Machine);
    s.set_sum(true);
    assert_eq!(s.0, (3 << 11) | (1 << 18));
    s.set_m_ints(true);
    assert!(s.m_ints());
    s.set_m_ints(false);
    assert!(!s.m_ints());
    s.set_s_ints(true);
    assert_eq!(s.0, (3 << 11) | (1 << 18) | 2);
    s.set_sum(false);
    s.set_m_prev_pl(ArchPrivilegeLevel::User);
    assert_eq!(s.0, 2);
}

#[test]
fn trap_causes() {
    assert_eq!(SCause::from_bits(13), SCause::Exception(ExceptionType::LoadPageFault));
    assert_eq!(SCause::from_bits(10), SCause::Exception(ExceptionType::Other(10)));
    let top = 1usize << (usize::BITS - 1);
    assert_eq!(SCause::from_bits(top | 5), SCause::Interrupt(InterruptType::STimer));
    assert_eq!(SCause::from_bits(top | 4), SCause::Interrupt(InterruptType::Other(4)));
    assert_eq!(ExceptionType::from_code(15).code(), 15);
    assert_eq!(ExceptionType::Other(99).code(), 99);
}
