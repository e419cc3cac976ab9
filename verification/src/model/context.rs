//! The building machine and the target platform.
use serde_json::Value;
use vstd::prelude::*;
use vstd::string::*;

use crate::error::{problem_if, reports, Result, WombatError};
use crate::json::{contents, members, no_members, object_tree, object_value, put, text_value, JsonTree};
use crate::model::frozen::{frozen_value, FrozenValue};
use crate::model::manifest::SourceTrace;
use crate::model::wire::source_trace_value;
use crate::text::{cat3, same, split, views};

verus! {

/// The operating systems that Wombat builds for.
#[derive(Clone, Copy, Debug, PartialEq, Eq, Structural)]
pub enum OperatingSystemName {
    /// macOS
    Macos,
    /// Linux
    Linux,
}

/// The architectures that Wombat builds for.
#[derive(Clone, Copy, Debug, PartialEq, Eq, Structural)]
pub enum Architecture {
    /// 64-bit ARM
    Aarch64,
    /// 64-bit x86
    X86_64,
}

impl OperatingSystemName {
    /// Its canonical name.
    pub open spec fn name(self) -> Seq<char> {
        match self {
            OperatingSystemName::Macos => "macos"@,
            OperatingSystemName::Linux => "linux"@,
        }
    }

    /// Its canonical name.
    pub fn as_str(self) -> (r: &'static str)
        ensures
            r@ == self.name(),
    {
        match self {
            OperatingSystemName::Macos => "macos",
            OperatingSystemName::Linux => "linux",
        }
    }
}

impl Architecture {
    /// Its canonical name.
    pub open spec fn name(self) -> Seq<char> {
        match self {
            Architecture::Aarch64 => "aarch64"@,
            Architecture::X86_64 => "x86_64"@,
        }
    }

    /// Its canonical name.
    pub fn as_str(self) -> (r: &'static str)
        ensures
            r@ == self.name(),
    {
        match self {
            Architecture::Aarch64 => "aarch64",
            Architecture::X86_64 => "x86_64",
        }
    }
}

/// An operating system, in as much detail as is known.
#[derive(Debug, PartialEq)]
pub struct OperatingSystem {
    /// Its name
    pub name: OperatingSystemName,
    /// Its version
    pub version: Option<FrozenValue>,
    /// Its kernel
    pub kernel: Option<FrozenValue>,
    /// Its distribution
    pub distribution: Option<FrozenValue>,
}

/// A platform.
#[derive(Debug, PartialEq)]
pub struct TargetPlatform {
    /// Its operating system
    pub os: OperatingSystem,
    /// Its architecture
    pub arch: Architecture,
}

/// Where the target platform comes from.
#[derive(Clone, Copy, Debug, PartialEq, Eq, Structural)]
pub enum PlatformOrigin {
    /// The building machine
    Host,
    /// The root policy of the repository
    RootOverride,
}

impl PlatformOrigin {
    /// Its name in views.
    pub open spec fn label(self) -> Seq<char> {
        match self {
            PlatformOrigin::Host => "Host"@,
            PlatformOrigin::RootOverride => "RootOverride"@,
        }
    }

    /// Its serialised name.
    pub open spec fn wire(self) -> Seq<char> {
        match self {
            PlatformOrigin::Host => "host"@,
            PlatformOrigin::RootOverride => "root_override"@,
        }
    }

    /// Its name in views.
    pub fn label_name(self) -> (r: &'static str)
        ensures
            r@ == self.label(),
    {
        match self {
            PlatformOrigin::Host => "Host",
            PlatformOrigin::RootOverride => "RootOverride",
        }
    }

    /// Its serialised name.
    pub fn wire_name(self) -> (r: &'static str)
        ensures
            r@ == self.wire(),
    {
        match self {
            PlatformOrigin::Host => "host",
            PlatformOrigin::RootOverride => "root_override",
        }
    }
}

/// The platform that a product is for.
#[derive(Debug, PartialEq)]
pub struct ResolvedTarget {
    /// The platform
    pub platform: TargetPlatform,
    /// Where it comes from
    pub origin: PlatformOrigin,
    /// The declaration that set it
    pub declared_at: Option<SourceTrace>,
}

impl TargetPlatform {
    /// The platform as `os/arch`.
    pub open spec fn compact_text(self) -> Seq<char> {
        self.os.name.name() + "/"@ + self.arch.name()
    }

    /// The platform as `os/arch`.
    pub fn compact(&self) -> (r: String)
        ensures
            r@ == self.compact_text(),
    {
        cat3(self.os.name.as_str(), "/", self.arch.as_str())
    }

    /// Whether what is built for one runs on the other: the same operating system
    /// and architecture.
    pub open spec fn compatible(self, other: TargetPlatform) -> bool {
        self.os.name == other.os.name && self.arch == other.arch
    }

    /// Whether what is built for this platform runs on `host`.
    pub fn locally_compatible_with(&self, host: &TargetPlatform) -> (r: bool)
        ensures
            r == self.compatible(*host),
    {
        self.os.name == host.os.name && self.arch == host.arch
    }

    /// Its serialised form.
    pub open spec fn tree(self) -> JsonTree {
        let m = no_members().push(("name"@, JsonTree::Text(self.os.name.name())));
        let m = with_detail(m, "version"@, self.os.version);
        let m = with_detail(m, "kernel"@, self.os.kernel);
        let m = with_detail(m, "distribution"@, self.os.distribution);
        object_tree(
            no_members().push(("os"@, object_tree(m))).push(
                ("arch"@, JsonTree::Text(self.arch.name())),
            ),
        )
    }
}

/// Members with one more, where the detail is known.
pub open spec fn with_detail(
    m: Seq<(Seq<char>, JsonTree)>,
    key: Seq<char>,
    detail: Option<FrozenValue>,
) -> Seq<(Seq<char>, JsonTree)> {
    match detail {
        Some(value) => m.push((key, value.tree())),
        None => m,
    }
}

fn put_detail(m: &mut Vec<(String, Value)>, key: &str, detail: &Option<FrozenValue>)
    ensures
        crate::json::member_contents(final(m)@) == with_detail(
            crate::json::member_contents(old(m)@),
            key@,
            *detail,
        ),
{
    match detail {
        Some(value) => put(m, key, frozen_value(value)),
        None => {},
    }
}

/// Serialises a platform.
pub(crate) fn platform_value(v: &TargetPlatform) -> (r: Value)
    ensures
        contents(r) == v.tree(),
{
    let mut os = members();
    put(&mut os, "name", text_value(v.os.name.as_str()));
    put_detail(&mut os, "version", &v.os.version);
    put_detail(&mut os, "kernel", &v.os.kernel);
    put_detail(&mut os, "distribution", &v.os.distribution);
    let mut m = members();
    put(&mut m, "os", object_value(os));
    put(&mut m, "arch", text_value(v.arch.as_str()));
    object_value(m)
}

impl ResolvedTarget {
    /// Its serialised form.
    pub open spec fn tree(self) -> JsonTree {
        let m = no_members().push(("platform"@, self.platform.tree())).push(
            ("origin"@, JsonTree::Text(self.origin.wire())),
        );
        object_tree(
            match self.declared_at {
                Some(trace) => m.push(("declared_at"@, trace.tree())),
                None => m,
            },
        )
    }
}

/// Serialises a target.
pub(crate) fn resolved_target_value(v: &ResolvedTarget) -> (r: Value)
    ensures
        contents(r) == v.tree(),
{
    let mut m = members();
    put(&mut m, "platform", platform_value(&v.platform));
    put(&mut m, "origin", text_value(v.origin.wire_name()));
    match &v.declared_at {
        Some(trace) => put(&mut m, "declared_at", source_trace_value(trace)),
        None => {},
    }
    object_value(m)
}

/// The operating system of a compact platform.
pub open spec fn os_named(name: Seq<char>) -> Option<OperatingSystemName> {
    if name == "macos"@ {
        Some(OperatingSystemName::Macos)
    } else if name == "linux"@ {
        Some(OperatingSystemName::Linux)
    } else {
        None
    }
}

/// The architecture of a compact platform, by its canonical name or the one that
/// distributions use.
pub open spec fn arch_named(name: Seq<char>) -> Option<Architecture> {
    if name == "aarch64"@ || name == "arm64"@ {
        Some(Architecture::Aarch64)
    } else if name == "x86_64"@ || name == "amd64"@ {
        Some(Architecture::X86_64)
    } else {
        None
    }
}

/// Whether text names a platform as `os/arch`.
pub open spec fn names_platform(value: Seq<char>) -> bool {
    let parts = crate::text::pieces(value, '/');
    parts.len() == 2 && os_named(parts[0]) is Some && arch_named(parts[1]) is Some
}

/// What is wrong with a compact platform.
pub open spec fn platform_problem(value: Seq<char>) -> Option<Seq<char>> {
    problem_if(
        !names_platform(value),
        "invalid target `"@ + value + "`; expected `os/arch`"@,
    )
}

impl TargetPlatform {
    /// Reads a platform from `os/arch`.
    pub fn parse_compact(value: &str) -> (r: Result<TargetPlatform>)
        ensures
            reports(r, platform_problem(value@)),
            r matches Ok(platform) ==> {
                let parts = crate::text::pieces(value@, '/');
                &&& Some(platform.os.name) == os_named(parts[0])
                &&& Some(platform.arch) == arch_named(parts[1])
                &&& platform.os.version is None
                &&& platform.os.kernel is None
                &&& platform.os.distribution is None
            },
    {
        let parts = split(value, '/');
        assert(parts@.len() == views(parts@).len());
        if parts.len() == 2 {
            assert(views(parts@)[0] == parts@[0]@);
            assert(views(parts@)[1] == parts@[1]@);
            let name = if same(parts[0].as_str(), "macos") {
                Some(OperatingSystemName::Macos)
            } else if same(parts[0].as_str(), "linux") {
                Some(OperatingSystemName::Linux)
            } else {
                None
            };
            let arch = if same(parts[1].as_str(), "aarch64") || same(parts[1].as_str(), "arm64") {
                Some(Architecture::Aarch64)
            } else if same(parts[1].as_str(), "x86_64") || same(parts[1].as_str(), "amd64") {
                Some(Architecture::X86_64)
            } else {
                None
            };
            if let (Some(name), Some(arch)) = (name, arch) {
                return Ok(
                    TargetPlatform {
                        os: OperatingSystem {
                            name,
                            version: None,
                            kernel: None,
                            distribution: None,
                        },
                        arch,
                    },
                );
            }
        }
        Err(
            WombatError::Configuration(
                cat3("invalid target `", value, "`; expected `os/arch`"),
            ),
        )
    }
}

} // verus!
