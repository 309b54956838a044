use bpt::arch::Arch;

const ALL: [Arch; 18] = [
    Arch::noarch,
    Arch::bbuild,
    Arch::native,
    Arch::aarch64,
    Arch::armv7hl,
    Arch::armv7l,
    Arch::i386,
    Arch::i486,
    Arch::i586,
    Arch::i686,
    Arch::mips,
    Arch::mipsel,
    Arch::mips64el,
    Arch::ppc,
    Arch::ppc64,
    Arch::ppc64le,
    Arch::s390x,
    Arch::x86_64,
];

#[test]
fn arch_names_read_back() {
    for a in ALL {
        for host in [Arch::x86_64, Arch::aarch64] {
            assert_eq!(Arch::from_name(a.as_str(), host), Some(a));
        }
    }
}

#[test]
fn host_names_the_host() {
    assert_eq!(Arch::from_name("host", Arch::ppc64le), Some(Arch::ppc64le));
    assert_eq!(Arch::from_name("x86-64", Arch::x86_64), None);
}
