//! The decisions of the commands that the desktop front end invokes: where a
//! host's password is kept, which password a command may use, and what an
//! SSH connection to a host is opened with.
use vstd::prelude::*;

use crate::models::host::{AuthType, Host};
use crate::services::ssh_client::{decimal, decimal_string, SshConfig};
use crate::stamps::{new_id, uuid_text};

verus! {

/// The greeting of the front end's handshake.
pub open spec fn greeting(name: Seq<char>) -> Seq<char> {
    "Hello, "@ + name + "! You've been greeted from Rust!"@
}

pub fn greet(name: &str) -> (s: String)
    ensures
        s@ == greeting(name@),
{
    String::from_str("Hello, ").concat(name).concat("! You've been greeted from Rust!")
}

/// The keyring entry that holds a host's password.
pub open spec fn password_key(host_id: Seq<char>) -> Seq<char> {
    "host-password:"@ + host_id
}

pub fn keyring_key(host_id: &str) -> (k: String)
    ensures
        k@ == password_key(host_id@),
{
    String::from_str("host-password:").concat(host_id)
}

/// Whether a host's password is read from the keyring at all.
pub open spec fn uses_keyring(host: Host) -> bool {
    host.auth_type == AuthType::Password
}

/// Whether the keyring is to be read for `host`: only password hosts keep
/// their password there.
pub fn reads_keyring(host: &Host) -> (b: bool)
    ensures
        b == uses_keyring(*host),
{
    match host.auth_type {
        AuthType::Password => true,
        AuthType::Key => false,
    }
}

/// The password that a command uses for a host, given what the keyring
/// holds under `keyring_key(host.id)` (read only for password hosts):
/// key-based hosts are refused; a keyring error is passed on; a missing
/// entry is an error.
pub open spec fn password_for(host: Host, stored: Result<Option<Seq<char>>, Seq<char>>) -> Result<
    Seq<char>,
    Seq<char>,
> {
    match host.auth_type {
        AuthType::Key => Err("key-based auth not yet supported"@),
        AuthType::Password => match stored {
            Err(e) => Err(e),
            Ok(None) => Err("password not stored in keyring"@),
            Ok(Some(p)) => Ok(p),
        },
    }
}

pub open spec fn stored_view(stored: Result<Option<String>, String>) -> Result<
    Option<Seq<char>>,
    Seq<char>,
> {
    match stored {
        Ok(Some(p)) => Ok(Some(p@)),
        Ok(None) => Ok(None),
        Err(e) => Err(e@),
    }
}

pub open spec fn result_view(r: Result<String, String>) -> Result<Seq<char>, Seq<char>> {
    match r {
        Ok(p) => Ok(p@),
        Err(e) => Err(e@),
    }
}

pub fn resolve_password(host: &Host, stored: Result<Option<String>, String>) -> (r: Result<
    String,
    String,
>)
    ensures
        result_view(r) == password_for(*host, stored_view(stored)),
{
    match host.auth_type {
        AuthType::Key => Err("key-based auth not yet supported".to_owned()),
        AuthType::Password => match stored {
            Err(e) => Err(e),
            Ok(None) => Err("password not stored in keyring".to_owned()),
            Ok(Some(p)) => Ok(p),
        },
    }
}

/// The password that a batch run uses for a host: as `password_for`, but a
/// missing entry names the host.
pub open spec fn batch_password_for(
    host: Host,
    stored: Result<Option<Seq<char>>, Seq<char>>,
) -> Result<Seq<char>, Seq<char>> {
    match host.auth_type {
        AuthType::Key => Err("key-based auth not yet supported"@),
        AuthType::Password => match stored {
            Err(e) => Err(e),
            Ok(None) => Err("password not stored for "@ + host.name@),
            Ok(Some(p)) => Ok(p),
        },
    }
}

pub fn resolve_batch_password(host: &Host, stored: Result<Option<String>, String>) -> (r: Result<
    String,
    String,
>)
    ensures
        result_view(r) == batch_password_for(*host, stored_view(stored)),
{
    match host.auth_type {
        AuthType::Key => Err("key-based auth not yet supported".to_owned()),
        AuthType::Password => match stored {
            Err(e) => Err(e),
            Ok(None) => Err(String::from_str("password not stored for ").concat(
                host.name.as_str(),
            )),
            Ok(Some(p)) => Ok(p),
        },
    }
}

/// The SSH configuration of a host reached with a password.
pub fn build_config(host: &Host, password: &str) -> (c: SshConfig)
    ensures
        c.host@ == host.address@,
        c.port == host.port,
        c.username@ == host.username@,
        c.auth matches crate::services::ssh_client::SshAuth::Password { password: p } && p@
            == password@,
{
    SshConfig::from_host_password(host, password)
}

/// The key under which a host's connection is kept for reuse: `address:port`.
pub open spec fn connection_key_of(address: Seq<char>, port: u16) -> Seq<char> {
    address + ":"@ + decimal(port as nat)
}

pub fn connection_key(host: &Host) -> (k: String)
    ensures
        k@ == connection_key_of(host.address@, host.port),
{
    String::from_str(host.address.as_str()).concat(":").concat(
        decimal_string(host.port as u64).as_str(),
    )
}

/// The id of a new terminal session: the one asked for, or a fresh one when
/// none is given.
pub fn session_id_or_new(session_id: String) -> (id: String)
    ensures
        session_id@.len() > 0 ==> id == session_id,
        session_id@.len() == 0 ==> uuid_text(id@),
{
    if session_id.as_str().is_empty() {
        new_id()
    } else {
        session_id
    }
}

} // verus!
