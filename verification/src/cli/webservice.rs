//! Options of the web service.

use vstd::prelude::*;
use vstd::string::*;

use crate::config;
use crate::config::{Config, Protocol};
use crate::text;

verus! {

/// The port to listen on: the argument, else the configured one.
pub open spec fn port_of(cli_port: Option<u16>, configured: u16) -> u16 {
    match cli_port {
        Some(port) => port,
        None => configured,
    }
}

/// The port to listen on: the argument, else the configured one.
pub fn effective_port(cli_port: Option<u16>, config: &Config) -> (r: u16)
    ensures
        r == port_of(cli_port, config.port),
        r == (match cli_port {
            Some(port) => port,
            None => config.port,
        }),
{
    match cli_port {
        Some(port) => port,
        None => config.port,
    }
}

/// The protocol to speak: the argument, else the configured one; none for an
/// argument that names none.
pub open spec fn protocol_of(cli_protocol: Option<Seq<char>>, configured: Protocol) -> Option<Protocol> {
    match cli_protocol {
        Some(value) => config::protocol_named(value),
        None => Some(configured),
    }
}

/// The protocol to speak: the argument, else the configured one.
pub fn effective_protocol(cli_protocol: Option<&str>, config: &Config) -> (r: Result<Protocol, String>)
    ensures
        r matches Ok(p) ==> protocol_of(crate::service_log::opt_chars(cli_protocol), config.protocol) == Some(p),
        r is Err ==> protocol_of(crate::service_log::opt_chars(cli_protocol), config.protocol) is None,
        match cli_protocol {
            None => r == Ok::<Protocol, String>(config.protocol),
            Some(value) => match config::protocol_named(value@) {
                Some(protocol) => r == Ok::<Protocol, String>(protocol),
                None => r matches Err(message) && message@ == "invalid --protocol "@ + text::debug_text(value@)
                    + " (use http or lsp)"@,
            },
        },
{
    match cli_protocol {
        None => Ok(config.protocol),
        Some(value) => match Protocol::parse(value) {
            Some(protocol) => Ok(protocol),
            None => {
                let message = String::from_str("invalid --protocol ");
                Err(message.concat(text::quoted(value).as_str()).concat(" (use http or lsp)"))
            },
        },
    }
}

/// A path: the argument, else the configured one, else the default.
pub open spec fn path_or(cli: Option<Seq<char>>, configured: Option<Seq<char>>, default: Seq<char>) -> Seq<char> {
    match cli {
        Some(path) => path,
        None => match configured {
            Some(path) => path,
            None => default,
        },
    }
}

/// The GeoIP database: the argument, else the configured one.
pub fn effective_geoip_db(cli: Option<&str>, config: &Config) -> (r: String)
    ensures
        r@ == path_or(
            crate::service_log::opt_chars(cli),
            text::opt_text(config.service_geoip_db),
            crate::service_log::DEFAULT_GEOIP_DB@,
        ),
        r@ == (match cli {
            Some(path) => path@,
            None => match text::opt_text(config.service_geoip_db) {
                Some(path) => path,
                None => crate::service_log::DEFAULT_GEOIP_DB@,
            },
        }),
{
    match cli {
        Some(path) => String::from_str(path),
        None => config.service_geoip_db(),
    }
}

// ---------------------------------------------------------------------
// the usage-log directory
// ---------------------------------------------------------------------

/// Whether the last component of a path has an extension.
pub uninterp spec fn has_extension(path: Seq<char>) -> bool;

/// `std::path::Path::extension` is there.  Whether it is depends on the path
/// alone; how the path splits into components is left unsaid.
#[verifier::external_body]
pub(crate) fn path_has_extension(path: &str) -> (r: bool)
    ensures
        r == has_extension(path@),
{
    std::path::Path::new(path).extension().is_some()
}

/// The path without its last component.
pub uninterp spec fn parent_path(path: Seq<char>) -> Option<Seq<char>>;

/// `std::path::Path::parent`.  The result depends on the path alone; how the
/// path splits into components is left unsaid.
#[verifier::external_body]
pub(crate) fn path_parent(path: &str) -> (r: Option<String>)
    ensures
        text::opt_text(r) == parent_path(path@),
{
    std::path::Path::new(path).parent().and_then(|p| p.to_str()).map(|p| p.to_string())
}

/// The directory that a path means: the parent of a path that looks like a
/// file, any other path itself.
pub open spec fn directory_for(path: Seq<char>, is_dir: bool, file_like: bool, parent: Option<Seq<char>>) -> Seq<char> {
    if !is_dir && file_like {
        match parent {
            Some(p) => p,
            None => path,
        }
    } else {
        path
    }
}

/// The directory that a path means, given whether it is a directory, whether it
/// has an extension, and its parent.
pub fn log_directory(path: &str, is_dir: bool, file_like: bool, parent: Option<String>) -> (r: String)
    ensures
        r@ == directory_for(path@, is_dir, file_like, text::opt_text(parent)),
{
    if !is_dir && file_like {
        match parent {
            Some(p) => p,
            None => String::from_str(path),
        }
    } else {
        String::from_str(path)
    }
}

/// Normalise a usage-log path to the directory of the daily files, given
/// whether the path is a directory.
pub fn servicelog_directory(path: &str, is_dir: bool) -> (r: String)
    ensures
        r@ == directory_for(path@, is_dir, has_extension(path@), parent_path(path@)),
{
    log_directory(path, is_dir, path_has_extension(path), path_parent(path))
}

/// The usage-log directory to try, and whether it was asked for: that of the
/// argument, else the configured one.
pub fn servicelog_candidate(cli_directory: Option<String>, config: &Config) -> (r: Option<String>)
    ensures
        text::opt_text(r) == (match text::opt_text(cli_directory) {
            Some(path) => Some(path),
            None => text::opt_text(config.service_log_dir),
        }),
{
    match cli_directory {
        Some(path) => Some(path),
        None => config.configured_service_log_directory(),
    }
}

/// Whether usage is logged.
#[derive(Debug, PartialEq, Eq)]
pub enum ServicelogResolution {
    /// Into a directory that exists and can be written to.
    Enabled(String),
    /// Nothing was configured.
    Disabled,
    /// A directory was configured but cannot be used.
    Unusable { path: String, explicit: bool, reason: &'static str },
}

/// Decide whether usage is logged, given the directory to try, whether it was
/// configured, and what is found there.
pub fn resolve_servicelog(candidate: Option<String>, explicit: bool, writable: bool, is_dir: bool) -> (r:
    ServicelogResolution)
    ensures
        match candidate {
            None => r is Disabled,
            Some(path) => if writable {
                r == ServicelogResolution::Enabled(path)
            } else {
                r matches ServicelogResolution::Unusable { path: p, explicit: e, reason } && {
                    &&& p == path
                    &&& e == explicit
                    &&& reason@ == (if is_dir {
                        "is not writable by the service user"@
                    } else {
                        "does not exist"@
                    })
                }
            },
        },
{
    match candidate {
        None => ServicelogResolution::Disabled,
        Some(path) => if writable {
            ServicelogResolution::Enabled(path)
        } else {
            ServicelogResolution::Unusable {
                path,
                explicit,
                reason: if is_dir {
                    "is not writable by the service user"
                } else {
                    "does not exist"
                },
            }
        },
    }
}

/// An argument wins over the configuration, whatever that says, and without it
/// the configuration counts; a protocol that the argument misnames is not
/// replaced by the configured one.
pub proof fn arguments_win_over_the_configuration(
    port: u16,
    configured_port: u16,
    name: Seq<char>,
    protocol: Protocol,
    path: Seq<char>,
    configured_path: Seq<char>,
    default: Seq<char>,
)
    ensures
        port_of(Some(port), configured_port) == port,
        port_of(None, configured_port) == configured_port,
        protocol_of(Some("lsp"@), protocol) == Some(Protocol::Lsp),
        protocol_of(Some("http"@), protocol) == Some(Protocol::Http),
        config::protocol_named(name) is None ==> protocol_of(Some(name), protocol) is None,
        protocol_of(None, protocol) == Some(protocol),
        path_or(Some(path), Some(configured_path), default) == path,
        path_or(Some(path), None, default) == path,
        path_or(None, Some(configured_path), default) == configured_path,
        path_or(None, None, default) == default,
{
    config::canonical_names_read_back();
}

/// A path that is a directory, or has no extension, means itself; any other one
/// means the directory that it lies in.
pub proof fn files_mean_their_directory(path: Seq<char>, parent: Seq<char>, file_like: bool)
    ensures
        directory_for(path, true, file_like, Some(parent)) == path,
        directory_for(path, false, false, Some(parent)) == path,
        directory_for(path, false, true, Some(parent)) == parent,
        directory_for(path, false, true, None) == path,
{
}

} // verus!
