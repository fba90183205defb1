use vstd::prelude::*;

verus! {

/// Whether a function is declared `unsafe`.
#[derive(Clone, Copy, Debug, PartialEq, Eq, Structural)]
pub enum Unsafety {
    Unsafe,
    Normal,
}

/// Whether a function is declared `const`.
#[derive(Clone, Copy, Debug, PartialEq, Eq, Structural)]
pub enum Constness {
    Const,
    NotConst,
}

/// Whether a function is declared `pub`.
#[derive(Clone, Copy, Debug, PartialEq, Eq, Structural)]
pub enum Visibility {
    Public,
    Private,
}

/// The calling conventions that the grammar knows. The set is closed: a
/// convention that is not listed here cannot be recorded.
#[derive(Clone, Copy, Debug, PartialEq, Eq, Structural)]
pub enum Abi {
    Cdecl,
    Stdcall,
    Fastcall,
    Vectorcall,
    Thiscall,
    Aapcs,
    Win64,
    SysV64,
    PtxKernel,
    Msp430Interrupt,
    X86Interrupt,
    Rust,
    C,
    System,
    RustIntrinsic,
    RustCall,
    PlatformIntrinsic,
    Unadjusted,
}

/// The name under which a calling convention is written in source text.
pub open spec fn abi_name(a: Abi) -> Seq<char> {
    match a {
        Abi::Cdecl => "cdecl"@,
        Abi::Stdcall => "stdcall"@,
        Abi::Fastcall => "fastcall"@,
        Abi::Vectorcall => "vectorcall"@,
        Abi::Thiscall => "thiscall"@,
        Abi::Aapcs => "aapcs"@,
        Abi::Win64 => "win64"@,
        Abi::SysV64 => "sysv64"@,
        Abi::PtxKernel => "ptx-kernel"@,
        Abi::Msp430Interrupt => "msp430-interrupt"@,
        Abi::X86Interrupt => "x86-interrupt"@,
        Abi::Rust => "Rust"@,
        Abi::C => "C"@,
        Abi::System => "system"@,
        Abi::RustIntrinsic => "rust-intrinsic"@,
        Abi::RustCall => "rust-call"@,
        Abi::PlatformIntrinsic => "platform-intrinsic"@,
        Abi::Unadjusted => "unadjusted"@,
    }
}

/// Character-by-character equality of two strings.
pub fn str_eq(a: &str, b: &str) -> (r: bool)
    ensures
        r == (a@ == b@),
{
    let n = a.unicode_len();
    let m = b.unicode_len();
    if n != m {
        return false;
    }
    let mut i: usize = 0;
    while i < n
        invariant
            n == a@.len(),
            m == b@.len(),
            n == m,
            i <= n,
            forall|j: int| 0 <= j < i ==> a@[j] == b@[j],
        decreases n - i,
    {
        if a.get_char(i) != b.get_char(i) {
            return false;
        }
        i = i + 1;
    }
    assert(a@ =~= b@);
    true
}

impl Abi {
    /// The name of this calling convention as written in source text.
    pub fn name(&self) -> (r: &'static str)
        ensures
            r@ == abi_name(*self),
    {
        match self {
            Abi::Cdecl => "cdecl",
            Abi::Stdcall => "stdcall",
            Abi::Fastcall => "fastcall",
            Abi::Vectorcall => "vectorcall",
            Abi::Thiscall => "thiscall",
            Abi::Aapcs => "aapcs",
            Abi::Win64 => "win64",
            Abi::SysV64 => "sysv64",
            Abi::PtxKernel => "ptx-kernel",
            Abi::Msp430Interrupt => "msp430-interrupt",
            Abi::X86Interrupt => "x86-interrupt",
            Abi::Rust => "Rust",
            Abi::C => "C",
            Abi::System => "system",
            Abi::RustIntrinsic => "rust-intrinsic",
            Abi::RustCall => "rust-call",
            Abi::PlatformIntrinsic => "platform-intrinsic",
            Abi::Unadjusted => "unadjusted",
        }
    }

    /// Maps a convention's source name to the closed set; a name outside the
    /// set gives `None` rather than a nearby convention.
    pub fn from_name(s: &str) -> (r: Option<Abi>)
        ensures
            r matches Some(a) ==> abi_name(a) == s@,
            r is None ==> forall|a: Abi| abi_name(a) != s@,
    {
        if str_eq(s, "cdecl") {
            Some(Abi::Cdecl)
        } else if str_eq(s, "stdcall") {
            Some(Abi::Stdcall)
        } else if str_eq(s, "fastcall") {
            Some(Abi::Fastcall)
        } else if str_eq(s, "vectorcall") {
            Some(Abi::Vectorcall)
        } else if str_eq(s, "thiscall") {
            Some(Abi::Thiscall)
        } else if str_eq(s, "aapcs") {
            Some(Abi::Aapcs)
        } else if str_eq(s, "win64") {
            Some(Abi::Win64)
        } else if str_eq(s, "sysv64") {
            Some(Abi::SysV64)
        } else if str_eq(s, "ptx-kernel") {
            Some(Abi::PtxKernel)
        } else if str_eq(s, "msp430-interrupt") {
            Some(Abi::Msp430Interrupt)
        } else if str_eq(s, "x86-interrupt") {
            Some(Abi::X86Interrupt)
        } else if str_eq(s, "Rust") {
            Some(Abi::Rust)
        } else if str_eq(s, "C") {
            Some(Abi::C)
        } else if str_eq(s, "system") {
            Some(Abi::System)
        } else if str_eq(s, "rust-intrinsic") {
            Some(Abi::RustIntrinsic)
        } else if str_eq(s, "rust-call") {
            Some(Abi::RustCall)
        } else if str_eq(s, "platform-intrinsic") {
            Some(Abi::PlatformIntrinsic)
        } else if str_eq(s, "unadjusted") {
            Some(Abi::Unadjusted)
        } else {
            None
        }
    }
}

/// The name and version of a package: the key of its documentation cache.
#[derive(Debug)]
pub struct PackageIdentity {
    pub name: String,
    pub version: String,
}

impl View for PackageIdentity {
    type V = (Seq<char>, Seq<char>);

    open spec fn view(&self) -> (Seq<char>, Seq<char>) {
        (self.name@, self.version@)
    }
}

impl PackageIdentity {
    pub fn new(name: String, version: String) -> (r: PackageIdentity)
        ensures
            r.name@ == name@,
            r.version@ == version@,
    {
        PackageIdentity { name, version }
    }

    /// A copy with the same name and version.
    pub fn duplicate(&self) -> (r: PackageIdentity)
        ensures
            r@ == self@,
    {
        PackageIdentity { name: self.name.clone(), version: self.version.clone() }
    }
}

/// What is recorded of one extracted function.
pub struct DocView {
    pub path: Seq<Seq<char>>,
    pub signature: Seq<char>,
    pub unsafety: Unsafety,
    pub constness: Constness,
    pub visibility: Visibility,
    pub abi: Abi,
}

/// The documentation of one free function: where it is declared and how.
#[derive(Debug)]
pub struct FunctionDoc {
    pub path: Vec<String>,
    pub signature: String,
    pub unsafety: Unsafety,
    pub constness: Constness,
    pub visibility: Visibility,
    pub abi: Abi,
}

pub open spec fn strings_view(v: Seq<String>) -> Seq<Seq<char>> {
    v.map_values(|s: String| s@)
}

impl View for FunctionDoc {
    type V = DocView;

    open spec fn view(&self) -> DocView {
        DocView {
            path: strings_view(self.path@),
            signature: self.signature@,
            unsafety: self.unsafety,
            constness: self.constness,
            visibility: self.visibility,
            abi: self.abi,
        }
    }
}

/// A copy of a list of strings.
pub fn copy_strings(v: &Vec<String>) -> (r: Vec<String>)
    ensures
        strings_view(r@) == strings_view(v@),
{
    let mut r: Vec<String> = Vec::new();
    let mut i: usize = 0;
    while i < v.len()
        invariant
            i <= v.len(),
            r@.len() == i,
            forall|j: int| 0 <= j < i ==> #[trigger] r@[j]@ == v@[j]@,
        decreases v.len() - i,
    {
        r.push(v[i].clone());
        i = i + 1;
    }
    assert(strings_view(r@) =~= strings_view(v@));
    r
}

pub open spec fn docs_view(v: Seq<FunctionDoc>) -> Seq<DocView> {
    v.map_values(|d: FunctionDoc| d@)
}

impl FunctionDoc {
    /// A copy with the same fields.
    pub fn duplicate(&self) -> (r: FunctionDoc)
        ensures
            r@ == self@,
    {
        FunctionDoc {
            path: copy_strings(&self.path),
            signature: self.signature.clone(),
            unsafety: self.unsafety,
            constness: self.constness,
            visibility: self.visibility,
            abi: self.abi,
        }
    }
}

} // verus!
