//! Package architectures.
use crate::text::str_eq;
use vstd::prelude::*;

verus! {

/// A package architecture.
///
/// `noarch` packages run anywhere, `bbuild` marks a package build definition rather than a
/// binary, and `native` is a non-portable build for the host.  The others are instruction set
/// architectures.
#[allow(non_camel_case_types)]
#[derive(Clone, Copy, Debug, PartialEq, Eq, Structural, Hash)]
pub enum Arch {
    noarch,
    bbuild,
    native,
    aarch64,
    armv7hl,
    armv7l,
    i386,
    i486,
    i586,
    i686,
    mips,
    mipsel,
    mips64el,
    ppc,
    ppc64,
    ppc64le,
    s390x,
    x86_64,
}

/// The name of an architecture, as written in configuration files and package identifiers.
pub open spec fn arch_name(a: Arch) -> Seq<char> {
    match a {
        Arch::noarch => "noarch"@,
        Arch::bbuild => "bbuild"@,
        Arch::native => "native"@,
        Arch::aarch64 => "aarch64"@,
        Arch::armv7hl => "armv7hl"@,
        Arch::armv7l => "armv7l"@,
        Arch::i386 => "i386"@,
        Arch::i486 => "i486"@,
        Arch::i586 => "i586"@,
        Arch::i686 => "i686"@,
        Arch::mips => "mips"@,
        Arch::mipsel => "mipsel"@,
        Arch::mips64el => "mips64el"@,
        Arch::ppc => "ppc"@,
        Arch::ppc64 => "ppc64"@,
        Arch::ppc64le => "ppc64le"@,
        Arch::s390x => "s390x"@,
        Arch::x86_64 => "x86_64"@,
    }
}

/// What an architecture name denotes: the architecture of that name, or the host architecture
/// for `host`.
pub open spec fn parse_arch(s: Seq<char>, host: Arch) -> Option<Arch> {
    if s == "host"@ {
        Some(host)
    } else if s == "noarch"@ {
        Some(Arch::noarch)
    } else if s == "bbuild"@ {
        Some(Arch::bbuild)
    } else if s == "native"@ {
        Some(Arch::native)
    } else if s == "aarch64"@ {
        Some(Arch::aarch64)
    } else if s == "armv7hl"@ {
        Some(Arch::armv7hl)
    } else if s == "armv7l"@ {
        Some(Arch::armv7l)
    } else if s == "i386"@ {
        Some(Arch::i386)
    } else if s == "i486"@ {
        Some(Arch::i486)
    } else if s == "i586"@ {
        Some(Arch::i586)
    } else if s == "i686"@ {
        Some(Arch::i686)
    } else if s == "mips"@ {
        Some(Arch::mips)
    } else if s == "mipsel"@ {
        Some(Arch::mipsel)
    } else if s == "mips64el"@ {
        Some(Arch::mips64el)
    } else if s == "ppc"@ {
        Some(Arch::ppc)
    } else if s == "ppc64"@ {
        Some(Arch::ppc64)
    } else if s == "ppc64le"@ {
        Some(Arch::ppc64le)
    } else if s == "s390x"@ {
        Some(Arch::s390x)
    } else if s == "x86_64"@ {
        Some(Arch::x86_64)
    } else {
        None
    }
}

impl Arch {
    /// The architecture's name.
    pub fn as_str(&self) -> (r: &'static str)
        ensures
            r@ == arch_name(*self),
    {
        match self {
            Arch::noarch => "noarch",
            Arch::bbuild => "bbuild",
            Arch::native => "native",
            Arch::aarch64 => "aarch64",
            Arch::armv7hl => "armv7hl",
            Arch::armv7l => "armv7l",
            Arch::i386 => "i386",
            Arch::i486 => "i486",
            Arch::i586 => "i586",
            Arch::i686 => "i686",
            Arch::mips => "mips",
            Arch::mipsel => "mipsel",
            Arch::mips64el => "mips64el",
            Arch::ppc => "ppc",
            Arch::ppc64 => "ppc64",
            Arch::ppc64le => "ppc64le",
            Arch::s390x => "s390x",
            Arch::x86_64 => "x86_64",
        }
    }

    /// Parses an architecture name; `host` denotes the given host architecture.
    pub fn from_name(s: &str, host: Arch) -> (r: Option<Arch>)
        ensures
            r == parse_arch(s@, host),
    {
        if str_eq(s, "host") {
            Some(host)
        } else if str_eq(s, "noarch") {
            Some(Arch::noarch)
        } else if str_eq(s, "bbuild") {
            Some(Arch::bbuild)
        } else if str_eq(s, "native") {
            Some(Arch::native)
        } else if str_eq(s, "aarch64") {
            Some(Arch::aarch64)
        } else if str_eq(s, "armv7hl") {
            Some(Arch::armv7hl)
        } else if str_eq(s, "armv7l") {
            Some(Arch::armv7l)
        } else if str_eq(s, "i386") {
            Some(Arch::i386)
        } else if str_eq(s, "i486") {
            Some(Arch::i486)
        } else if str_eq(s, "i586") {
            Some(Arch::i586)
        } else if str_eq(s, "i686") {
            Some(Arch::i686)
        } else if str_eq(s, "mips") {
            Some(Arch::mips)
        } else if str_eq(s, "mipsel") {
            Some(Arch::mipsel)
        } else if str_eq(s, "mips64el") {
            Some(Arch::mips64el)
        } else if str_eq(s, "ppc") {
            Some(Arch::ppc)
        } else if str_eq(s, "ppc64") {
            Some(Arch::ppc64)
        } else if str_eq(s, "ppc64le") {
            Some(Arch::ppc64le)
        } else if str_eq(s, "s390x") {
            Some(Arch::s390x)
        } else if str_eq(s, "x86_64") {
            Some(Arch::x86_64)
        } else {
            None
        }
    }
}

/// Every architecture's name denotes that architecture again, whatever the host: names and
/// architectures correspond one to one.
pub proof fn lemma_arch_name_roundtrip(a: Arch, host: Arch)
    ensures
        parse_arch(arch_name(a), host) == Some(a),
{
    // Names of different lengths differ; names of equal length differ at the character asserted.
    reveal_strlit("host");
    assert("host"@.len() == 4);
    reveal_strlit("noarch");
    assert("noarch"@.len() == 6);
    reveal_strlit("bbuild");
    assert("bbuild"@.len() == 6);
    reveal_strlit("native");
    assert("native"@.len() == 6);
    reveal_strlit("aarch64");
    assert("aarch64"@.len() == 7);
    reveal_strlit("armv7hl");
    assert("armv7hl"@.len() == 7);
    reveal_strlit("armv7l");
    assert("armv7l"@.len() == 6);
    reveal_strlit("i386");
    assert("i386"@.len() == 4);
    reveal_strlit("i486");
    assert("i486"@.len() == 4);
    reveal_strlit("i586");
    assert("i586"@.len() == 4);
    reveal_strlit("i686");
    assert("i686"@.len() == 4);
    reveal_strlit("mips");
    assert("mips"@.len() == 4);
    reveal_strlit("mipsel");
    assert("mipsel"@.len() == 6);
    reveal_strlit("mips64el");
    assert("mips64el"@.len() == 8);
    reveal_strlit("ppc");
    assert("ppc"@.len() == 3);
    reveal_strlit("ppc64");
    assert("ppc64"@.len() == 5);
    reveal_strlit("ppc64le");
    assert("ppc64le"@.len() == 7);
    reveal_strlit("s390x");
    assert("s390x"@.len() == 5);
    reveal_strlit("x86_64");
    assert("x86_64"@.len() == 6);
    match a {
        Arch::noarch => {},
        Arch::bbuild => {
            assert("bbuild"@[0] != "noarch"@[0]);
        },
        Arch::native => {
            assert("native"@[1] != "noarch"@[1]);
            assert("native"@[0] != "bbuild"@[0]);
        },
        Arch::aarch64 => {},
        Arch::armv7hl => {
            assert("armv7hl"@[1] != "aarch64"@[1]);
        },
        Arch::armv7l => {
            assert("armv7l"@[0] != "noarch"@[0]);
            assert("armv7l"@[0] != "bbuild"@[0]);
            assert("armv7l"@[0] != "native"@[0]);
        },
        Arch::i386 => {
            assert("i386"@[0] != "host"@[0]);
        },
        Arch::i486 => {
            assert("i486"@[0] != "host"@[0]);
            assert("i486"@[1] != "i386"@[1]);
        },
        Arch::i586 => {
            assert("i586"@[0] != "host"@[0]);
            assert("i586"@[1] != "i386"@[1]);
            assert("i586"@[1] != "i486"@[1]);
        },
        Arch::i686 => {
            assert("i686"@[0] != "host"@[0]);
            assert("i686"@[1] != "i386"@[1]);
            assert("i686"@[1] != "i486"@[1]);
            assert("i686"@[1] != "i586"@[1]);
        },
        Arch::mips => {
            assert("mips"@[0] != "host"@[0]);
            assert("mips"@[0] != "i386"@[0]);
            assert("mips"@[0] != "i486"@[0]);
            assert("mips"@[0] != "i586"@[0]);
            assert("mips"@[0] != "i686"@[0]);
        },
        Arch::mipsel => {
            assert("mipsel"@[0] != "noarch"@[0]);
            assert("mipsel"@[0] != "bbuild"@[0]);
            assert("mipsel"@[0] != "native"@[0]);
            assert("mipsel"@[0] != "armv7l"@[0]);
        },
        Arch::mips64el => {},
        Arch::ppc => {},
        Arch::ppc64 => {},
        Arch::ppc64le => {
            assert("ppc64le"@[0] != "aarch64"@[0]);
            assert("ppc64le"@[0] != "armv7hl"@[0]);
        },
        Arch::s390x => {
            assert("s390x"@[0] != "ppc64"@[0]);
        },
        Arch::x86_64 => {
            assert("x86_64"@[0] != "noarch"@[0]);
            assert("x86_64"@[0] != "bbuild"@[0]);
            assert("x86_64"@[0] != "native"@[0]);
            assert("x86_64"@[0] != "armv7l"@[0]);
            assert("x86_64"@[0] != "mipsel"@[0]);
        },
    }
}

} // verus!
