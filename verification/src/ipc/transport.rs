//! The endpoints that the engine listens on, and who may open each.

use vstd::prelude::*;

verus! {

/// Where the window connects for live statistics, reads and closed connections.
pub const PIPE_NAME: &'static str = "/run/iris/engine.sock";

/// Where changes of rules are taken, from callers with full rights alone.
pub const ADMIN_PIPE_NAME: &'static str = "/run/iris/admin/engine.sock";

/// Where plugins connect back.
pub const PLUGIN_PIPE_NAME: &'static str = "/run/iris/plugins/plugins.sock";

/// What an endpoint is for.
#[derive(Debug, Clone, Copy, PartialEq, Eq, Structural)]
pub enum Channel {
    Telemetry,
    Admin,
    Plugins,
}

/// The two ways in which a platform names and guards an endpoint.
#[derive(Debug, Clone, Copy, PartialEq, Eq, Structural)]
pub enum Platform {
    Unix,
    Windows,
}

impl Channel {
    /// The endpoint's name.
    pub open spec fn named(self, platform: Platform) -> Seq<char> {
        match (platform, self) {
            (Platform::Unix, Channel::Telemetry) => "/run/iris/engine.sock"@,
            (Platform::Unix, Channel::Admin) => "/run/iris/admin/engine.sock"@,
            (Platform::Unix, Channel::Plugins) => "/run/iris/plugins/plugins.sock"@,
            (Platform::Windows, Channel::Telemetry) => "\\\\.\\pipe\\iris-engine"@,
            (Platform::Windows, Channel::Admin) => "\\\\.\\pipe\\iris-engine-admin"@,
            (Platform::Windows, Channel::Plugins) => "\\\\.\\pipe\\iris-plugins"@,
        }
    }

    /// The endpoint's name.
    pub fn name(self, platform: Platform) -> (s: &'static str)
        ensures
            s@ == self.named(platform),
    {
        match (platform, self) {
            (Platform::Unix, Channel::Telemetry) => "/run/iris/engine.sock",
            (Platform::Unix, Channel::Admin) => "/run/iris/admin/engine.sock",
            (Platform::Unix, Channel::Plugins) => "/run/iris/plugins/plugins.sock",
            (Platform::Windows, Channel::Telemetry) => "\\\\.\\pipe\\iris-engine",
            (Platform::Windows, Channel::Admin) => "\\\\.\\pipe\\iris-engine-admin",
            (Platform::Windows, Channel::Plugins) => "\\\\.\\pipe\\iris-plugins",
        }
    }

    /// The mode of a socket's file: all may open the telemetry socket, and the
    /// others are guarded by the directories that they stand in as well.
    pub fn mode(self) -> (m: u32)
        ensures
            m == match self {
                Channel::Telemetry => 0o666u32,
                Channel::Admin => 0o600u32,
                Channel::Plugins => 0o660u32,
            },
    {
        match self {
            Channel::Telemetry => 0o666,
            Channel::Admin => 0o600,
            Channel::Plugins => 0o660,
        }
    }

    /// A pipe's security descriptor: the system and its administrators have every
    /// pipe but the plugins', which the system alone has at low integrity, and
    /// users who are logged on read and write the telemetry pipe.
    pub open spec fn descriptor(self) -> Seq<char> {
        match self {
            Channel::Telemetry => "D:(A;;GA;;;SY)(A;;GA;;;BA)(A;;GRGW;;;IU)S:(ML;;NW;;;ME)"@,
            Channel::Admin => "D:(A;;GA;;;SY)(A;;GA;;;BA)"@,
            Channel::Plugins => "D:(A;;GA;;;SY)S:(ML;;NW;;;LW)"@,
        }
    }

    /// A pipe's security descriptor.
    pub fn sddl(self) -> (s: &'static str)
        ensures
            s@ == self.descriptor(),
    {
        match self {
            Channel::Telemetry => "D:(A;;GA;;;SY)(A;;GA;;;BA)(A;;GRGW;;;IU)S:(ML;;NW;;;ME)",
            Channel::Admin => "D:(A;;GA;;;SY)(A;;GA;;;BA)",
            Channel::Plugins => "D:(A;;GA;;;SY)S:(ML;;NW;;;LW)",
        }
    }
}

} // verus!
