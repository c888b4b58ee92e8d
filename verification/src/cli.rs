//! What the command line asks for.

use crate::namespace::config::{
    DnsConfig, LaunchConfig, NetworkConfig, SandboxConfig, UpstreamConfig,
};
use crate::json::{
    Member, MemberModel, Value, ValueModel, find, json_object, models, object, place, read_object,
};
use crate::namespace::control::{kind_of, payload_of};
use crate::net::SocketAddress;
use crate::proxy_proto::{Credentials, Protocol, sendable};
use crate::sys::control::{ControlError, Kind, decode, decode_error};
use crate::text::decimal;
use vstd::prelude::*;

verus! {

/// The most octets of a credential.
pub const MAX_CREDENTIAL: usize = 255;

/// How many octets of a credential file are read: enough to see that it is too
/// long, with a line ending.
pub const CREDENTIAL_READ: usize = 258;

#[derive(Clone, Copy, Debug, PartialEq, Eq, Structural)]
pub enum CliError {
    /// The user name and the password must be given together.
    IncompleteCredentials,
    /// A credential is empty or too long.
    InvalidCredentials,
    /// Credentials are of no use without a proxy.
    CredentialsWithoutProxy,
    /// Only a direct upstream can map the gateway to the host's loopback.
    LoopbackWithProxy,
    /// Exactly one upstream must be selected.
    UpstreamNotUnique,
    /// The credential is not a regular file.
    NotARegularFile,
    /// The credential is not owned by the current user.
    NotOwned,
    /// The credential is open to the group or to others.
    NotPrivate,
    /// The credential exceeds 255 octets.
    CredentialTooLong,
}

/// The options of `run`, as plain values.
pub struct RunOptions {
    pub direct: bool,
    pub socks5: Option<SocketAddress>,
    pub http_connect: Option<SocketAddress>,
    pub username: Option<Vec<u8>>,
    pub password: Option<Vec<u8>>,
    pub host_loopback: bool,
    pub no_ipv4: bool,
    pub no_ipv6: bool,
    pub tap_mtu: u32,
    pub tap_offload: bool,
    pub name: Option<Vec<u8>>,
    pub runtime_dir: Option<Vec<u8>>,
    pub dns: DnsConfig,
    pub sandbox: SandboxConfig,
    pub workers: usize,
    pub max_tcp_flows: usize,
    pub max_udp_flows: usize,
    pub max_udp_associations: usize,
    pub max_pending_tcp_bytes: usize,
    pub max_retained_tcp_bytes: usize,
    pub tcp_receive_buffer_bytes: usize,
    pub tcp_send_buffer_bytes: usize,
    pub command: Vec<Vec<u8>>,
}

/// The credentials that the two files make: both or none.
pub fn pair_credentials(username: Option<Vec<u8>>, password: Option<Vec<u8>>) -> (result: Result<
    Option<Credentials>,
    CliError,
>)
    ensures
        match (username, password) {
            (Some(name), Some(secret)) => if sendable(name@) && sendable(secret@) {
                result matches Ok(Some(credentials)) && credentials.name() == name@
                    && credentials.secret() == secret@
            } else {
                result == Err::<Option<Credentials>, CliError>(CliError::InvalidCredentials)
            },
            (None, None) => result == Ok::<Option<Credentials>, CliError>(None),
            _ => result == Err::<Option<Credentials>, CliError>(CliError::IncompleteCredentials),
        },
{
    match (username, password) {
        (Some(name), Some(secret)) => match Credentials::new(name, secret) {
            Ok(credentials) => Ok(Some(credentials)),
            Err(_) => Err(CliError::InvalidCredentials),
        },
        (None, None) => Ok(None),
        _ => Err(CliError::IncompleteCredentials),
    }
}

/// What is wrong with a selection of upstreams, if something is.
pub open spec fn upstream_fault(
    direct: bool,
    socks5: bool,
    http_connect: bool,
    credentials: bool,
    host_loopback: bool,
) -> Option<CliError> {
    if direct && !socks5 && !http_connect {
        if credentials {
            Some(CliError::CredentialsWithoutProxy)
        } else {
            None
        }
    } else if !direct && socks5 != http_connect {
        if host_loopback {
            Some(CliError::LoopbackWithProxy)
        } else {
            None
        }
    } else {
        Some(CliError::UpstreamNotUnique)
    }
}

/// The upstream that is selected: exactly one.
pub fn choose_upstream(
    direct: bool,
    socks5: Option<SocketAddress>,
    http_connect: Option<SocketAddress>,
    credentials: Option<Credentials>,
    host_loopback: bool,
) -> (result: Result<UpstreamConfig, CliError>)
    ensures
        match upstream_fault(
            direct,
            socks5 is Some,
            http_connect is Some,
            credentials is Some,
            host_loopback,
        ) {
            Some(error) => result == Err::<UpstreamConfig, CliError>(error),
            None => result == Ok::<UpstreamConfig, CliError>(
                match (socks5, http_connect) {
                    (Some(address), _) => UpstreamConfig::Proxy {
                        protocol: Protocol::Socks5,
                        address,
                        credentials,
                    },
                    (None, Some(address)) => UpstreamConfig::Proxy {
                        protocol: Protocol::HttpConnect,
                        address,
                        credentials,
                    },
                    (None, None) => UpstreamConfig::Direct { host_loopback },
                },
            ),
        },
{
    match (direct, socks5, http_connect) {
        (true, None, None) => {
            if credentials.is_some() {
                return Err(CliError::CredentialsWithoutProxy);
            }
            Ok(UpstreamConfig::Direct { host_loopback })
        },
        (false, Some(address), None) => {
            if host_loopback {
                return Err(CliError::LoopbackWithProxy);
            }
            Ok(UpstreamConfig::Proxy { protocol: Protocol::Socks5, address, credentials })
        },
        (false, None, Some(address)) => {
            if host_loopback {
                return Err(CliError::LoopbackWithProxy);
            }
            Ok(UpstreamConfig::Proxy { protocol: Protocol::HttpConnect, address, credentials })
        },
        _ => Err(CliError::UpstreamNotUnique),
    }
}

/// The settings that the options of `run` make.
pub fn launch_config(options: RunOptions) -> (result: Result<LaunchConfig, CliError>)
    ensures
        match result {
            Ok(config) => {
                &&& config.command == options.command
                &&& config.name == options.name
                &&& config.runtime_root == options.runtime_dir
                &&& config.network.tap_mtu == options.tap_mtu
                &&& config.network.tap_offload == options.tap_offload
                &&& config.network.is_synthetic(!options.no_ipv4, !options.no_ipv6)
                &&& config.dns == options.dns
                &&& config.sandbox == options.sandbox
                &&& config.workers == options.workers
                &&& config.max_tcp_flows == options.max_tcp_flows
                &&& config.max_udp_flows == options.max_udp_flows
                &&& config.max_udp_associations == options.max_udp_associations
                &&& config.max_pending_tcp_bytes == options.max_pending_tcp_bytes
                &&& config.max_retained_tcp_bytes == options.max_retained_tcp_bytes
                &&& config.tcp_receive_buffer_bytes == options.tcp_receive_buffer_bytes
                &&& config.tcp_send_buffer_bytes == options.tcp_send_buffer_bytes
                &&& options_fault(options) is None
                &&& upstream_matches(config.upstream, options)
            },
            Err(error) => options_fault(options) == Some(error),
        },
{
    let credentials = match pair_credentials(options.username, options.password) {
        Ok(credentials) => credentials,
        Err(error) => return Err(error),
    };
    let upstream = match choose_upstream(
        options.direct,
        options.socks5,
        options.http_connect,
        credentials,
        options.host_loopback,
    ) {
        Ok(upstream) => upstream,
        Err(error) => return Err(error),
    };
    let network = NetworkConfig::synthetic(
        !options.no_ipv4,
        !options.no_ipv6,
        options.tap_mtu,
        options.tap_offload,
    );
    Ok(
        LaunchConfig {
            command: options.command,
            name: options.name,
            runtime_root: options.runtime_dir,
            network,
            upstream,
            dns: options.dns,
            sandbox: options.sandbox,
            workers: options.workers,
            max_tcp_flows: options.max_tcp_flows,
            max_udp_flows: options.max_udp_flows,
            max_udp_associations: options.max_udp_associations,
            max_pending_tcp_bytes: options.max_pending_tcp_bytes,
            max_retained_tcp_bytes: options.max_retained_tcp_bytes,
            tcp_receive_buffer_bytes: options.tcp_receive_buffer_bytes,
            tcp_send_buffer_bytes: options.tcp_send_buffer_bytes,
        },
    )
}

/// What is wrong with the options, if something is: first the credentials, then
/// the selection of the upstream.
pub open spec fn options_fault(options: RunOptions) -> Option<CliError> {
    if options.username is Some != options.password is Some {
        Some(CliError::IncompleteCredentials)
    } else if options.username is Some && !(sendable(options.username->0@) && sendable(
        options.password->0@,
    )) {
        Some(CliError::InvalidCredentials)
    } else {
        upstream_fault(
            options.direct,
            options.socks5 is Some,
            options.http_connect is Some,
            options.username is Some,
            options.host_loopback,
        )
    }
}

/// Whether an upstream is the one that options without a fault select.
pub open spec fn upstream_matches(upstream: UpstreamConfig, options: RunOptions) -> bool {
    match upstream {
        UpstreamConfig::Direct { host_loopback } => options.direct && host_loopback
            == options.host_loopback,
        UpstreamConfig::Proxy { protocol, address, credentials } => {
            &&& match protocol {
                Protocol::Socks5 => options.socks5 == Some(address),
                Protocol::HttpConnect => options.http_connect == Some(address),
            }
            &&& match credentials {
                Some(credentials) => {
                    &&& options.username is Some
                    &&& options.password is Some
                    &&& credentials.name() == options.username->0@
                    &&& credentials.secret() == options.password->0@
                },
                None => options.username is None && options.password is None,
            }
        },
    }
}

/// What is known of a credential file.
#[derive(Clone, Copy, Debug, PartialEq, Eq, Structural)]
pub struct FileFacts {
    pub is_regular: bool,
    pub owner: u32,
    pub mode: u32,
}

/// A credential file is regular, belongs to the caller, and is closed to
/// everybody else.
pub fn check_credential_file(facts: FileFacts, caller: u32) -> (result: Result<(), CliError>)
    ensures
        result == if !facts.is_regular {
            Err(CliError::NotARegularFile)
        } else if facts.owner != caller {
            Err(CliError::NotOwned)
        } else if facts.mode & 0x3f != 0 {
            Err(CliError::NotPrivate)
        } else {
            Ok(())
        },
{
    if !facts.is_regular {
        return Err(CliError::NotARegularFile);
    }
    if facts.owner != caller {
        return Err(CliError::NotOwned);
    }
    if facts.mode & 0x3f != 0 {
        return Err(CliError::NotPrivate);
    }
    Ok(())
}

/// `value` without one line ending: a line feed, and a carriage return before it.
pub open spec fn without_line_ending(value: Seq<u8>) -> Seq<u8> {
    if value.len() > 0 && value.last() == 10 {
        let line = value.drop_last();
        if line.len() > 0 && line.last() == 13 {
            line.drop_last()
        } else {
            line
        }
    } else {
        value
    }
}

/// The credential that a file holds.
pub fn trim_credential(contents: Vec<u8>) -> (result: Result<Vec<u8>, CliError>)
    ensures
        match result {
            Ok(value) => value@ == without_line_ending(contents@) && value@.len()
                <= MAX_CREDENTIAL,
            Err(error) => {
                &&& without_line_ending(contents@).len() > MAX_CREDENTIAL
                &&& error == CliError::CredentialTooLong
            },
        },
{
    let mut value = contents;
    if value.len() > 0 && value[value.len() - 1] == 10 {
        value.pop();
        assert(value@ =~= contents@.drop_last());
        if value.len() > 0 && value[value.len() - 1] == 13 {
            value.pop();
            assert(value@ =~= contents@.drop_last().drop_last());
        }
    }
    if value.len() > MAX_CREDENTIAL {
        return Err(CliError::CredentialTooLong);
    }
    Ok(value)
}

/// It is enough to read the first octets of a credential file: a credential that
/// is short enough is read whole, and one that is too long is refused.
pub proof fn law_reading_part_is_enough(contents: Seq<u8>)
    ensures
        ({
            let part = contents.take(
                if contents.len() < CREDENTIAL_READ {
                    contents.len() as int
                } else {
                    CREDENTIAL_READ as int
                },
            );
            if without_line_ending(contents).len() <= MAX_CREDENTIAL {
                without_line_ending(part) == without_line_ending(contents)
            } else {
                without_line_ending(part).len() > MAX_CREDENTIAL
            }
        }),
{
    let part = contents.take(
        if contents.len() < CREDENTIAL_READ {
            contents.len() as int
        } else {
            CREDENTIAL_READ as int
        },
    );
    if contents.len() <= CREDENTIAL_READ {
        assert(part =~= contents);
    }
}

/// `instance_id`.
pub open spec fn instance_id_name() -> Seq<u8> {
    seq![105u8, 110u8, 115u8, 116u8, 97u8, 110u8, 99u8, 101u8, 95u8, 105u8, 100u8]
}

/// `state`.
pub open spec fn state_name() -> Seq<u8> {
    seq![115u8, 116u8, 97u8, 116u8, 101u8]
}

/// `target_pid`.
pub open spec fn target_pid_name() -> Seq<u8> {
    seq![116u8, 97u8, 114u8, 103u8, 101u8, 116u8, 95u8, 112u8, 105u8, 100u8]
}

/// `unknown`.
pub open spec fn unknown() -> Seq<u8> {
    seq![117u8, 110u8, 107u8, 110u8, 111u8, 119u8, 110u8]
}

/// ` (target pid `.
pub open spec fn before_pid() -> Seq<u8> {
    seq![
        32u8,
        40u8,
        116u8,
        97u8,
        114u8,
        103u8,
        101u8,
        116u8,
        32u8,
        112u8,
        105u8,
        100u8,
        32u8,
    ]
}

/// The value of the member `name`, if there is one.
pub open spec fn member(status: Option<Seq<MemberModel>>, name: Seq<u8>) -> Option<ValueModel> {
    match status {
        Some(members) => {
            let at = place(members, name, 0);
            if at < members.len() {
                Some(members[at].value)
            } else {
                None
            }
        },
        None => None,
    }
}

/// The string `name` of a status, or `unknown`.
pub open spec fn status_text(status: Option<Seq<MemberModel>>, name: Seq<u8>) -> Seq<u8> {
    match member(status, name) {
        Some(ValueModel::Text(text)) => text,
        _ => unknown(),
    }
}

/// The process of a status, or zero where it gives none that fits.
pub open spec fn status_pid(status: Option<Seq<MemberModel>>) -> int {
    match member(status, target_pid_name()) {
        Some(ValueModel::Unsigned(number)) => if number <= i64::MAX {
            number as int
        } else {
            0
        },
        Some(ValueModel::Negative(number)) => number as int,
        _ => 0,
    }
}

/// A whole number in decimal, with its sign where it is below zero.
pub open spec fn signed_decimal(n: int) -> Seq<u8> {
    if n < 0 {
        seq![45u8] + decimal((-n) as nat)
    } else {
        decimal(n as nat)
    }
}

/// A status in one line: `<instance>: <state> (target pid <pid>)`.
pub open spec fn status_line_of(status: Option<Seq<MemberModel>>) -> Seq<u8> {
    status_text(status, instance_id_name()) + seq![58u8, 32u8] + status_text(status, state_name())
        + before_pid() + signed_decimal(status_pid(status)) + seq![41u8]
}

fn push_status_text(out: &mut Vec<u8>, status: &Option<Vec<Member>>, name: &[u8])
    ensures
        final(out)@ == old(out)@ + status_text(object(*status), name@),
{
    if let Some(members) = status {
        let at: usize = find(members, name);
        if at < members.len() {
            assert(models(members@)[at as int] == members@[at as int]@);
            if let Value::Text(text) = &members[at].value {
                crate::text::push_all(out, text);
                return;
            }
        }
    }
    let missing = [117, 110, 107, 110, 111, 119, 110];
    assert(missing@ =~= unknown());
    crate::text::push_all(out, &missing);
}

fn push_status_pid(out: &mut Vec<u8>, status: &Option<Vec<Member>>)
    ensures
        final(out)@ == old(out)@ + signed_decimal(status_pid(object(*status))),
{
    if let Some(members) = status {
        let name = [116, 97, 114, 103, 101, 116, 95, 112, 105, 100];
        assert(name@ =~= target_pid_name());
        let at: usize = find(members, &name);
        if at < members.len() {
            assert(models(members@)[at as int] == members@[at as int]@);
            match &members[at].value {
                Value::Unsigned(number) => {
                    if *number <= i64::MAX as u64 {
                        crate::text::push_decimal(out, *number);
                        return;
                    }
                },
                Value::Negative(number) => {
                    if *number < 0 {
                        out.push(45);
                        let size: u64 = (-(*number + 1)) as u64 + 1;
                        crate::text::push_decimal(out, size);
                        assert(out@ =~= old(out)@ + signed_decimal(*number as int));
                    } else {
                        crate::text::push_decimal(out, *number as u64);
                    }
                    return;
                },
                _ => {},
            }
        }
    }
    crate::text::push_decimal(out, 0);
}

/// What a status, read from JSON, says in one line. What is missing, or of
/// another type, is `unknown`, and for the process zero.
pub fn status_line(status: &Option<Vec<Member>>) -> (line: Vec<u8>)
    ensures
        line@ == status_line_of(object(*status)),
{
    let mut line: Vec<u8> = Vec::new();
    let instance = [105, 110, 115, 116, 97, 110, 99, 101, 95, 105, 100];
    let state = [115, 116, 97, 116, 101];
    let pid = [32, 40, 116, 97, 114, 103, 101, 116, 32, 112, 105, 100, 32];
    assert(instance@ =~= instance_id_name());
    assert(state@ =~= state_name());
    assert(pid@ =~= before_pid());
    push_status_text(&mut line, status, &instance);
    line.push(58);
    line.push(32);
    push_status_text(&mut line, status, &state);
    crate::text::push_all(&mut line, &pid);
    push_status_pid(&mut line, status);
    line.push(41);
    assert(line@ =~= status_line_of(object(*status)));
    line
}

#[derive(Clone, Copy, Debug, PartialEq, Eq, Structural)]
pub enum StatusError {
    /// The reply is no message.
    Control(ControlError),
    /// The reply is a message, but no status.
    InvalidReply,
    /// The status is no JSON.
    NotJson,
}

/// What is shown of the reply to a request for the status: the JSON itself, or
/// one line about it.
pub fn status_reply(packet: &[u8], json: bool) -> (result: Result<Vec<u8>, StatusError>)
    ensures
        match result {
            Ok(shown) => {
                &&& decode_error(packet@) is None
                &&& kind_of(packet@) == Kind::Status
                &&& if json {
                    shown@ == payload_of(packet@)
                } else {
                    match json_object(payload_of(packet@)) {
                        Some(status) => shown@ == status_line_of(status),
                        None => false,
                    }
                }
            },
            Err(StatusError::Control(error)) => decode_error(packet@) == Some(error),
            Err(StatusError::InvalidReply) => {
                &&& decode_error(packet@) is None
                &&& kind_of(packet@) != Kind::Status
            },
            Err(StatusError::NotJson) => {
                &&& decode_error(packet@) is None
                &&& kind_of(packet@) == Kind::Status
                &&& !json
                &&& json_object(payload_of(packet@)) is None
            },
        },
{
    let message = match decode(packet) {
        Ok(message) => message,
        Err(error) => return Err(StatusError::Control(error)),
    };
    assert(message.payload@ =~= payload_of(packet@));
    if message.kind != Kind::Status {
        return Err(StatusError::InvalidReply);
    }
    if json {
        let mut shown: Vec<u8> = Vec::new();
        crate::text::push_all(&mut shown, message.payload);
        assert(shown@ =~= payload_of(packet@));
        return Ok(shown);
    }
    match read_object(message.payload) {
        Some(status) => Ok(status_line(&status)),
        None => Err(StatusError::NotJson),
    }
}

/// Exactly one upstream is selected. Credentials are only for a proxy, and the
/// loopback of the host only for direct connections.
pub proof fn law_one_upstream_is_selected(
    direct: bool,
    socks5: bool,
    http_connect: bool,
    credentials: bool,
    host_loopback: bool,
)
    ensures
        ({
            let fault = upstream_fault(direct, socks5, http_connect, credentials, host_loopback);
            let selected = (if direct {
                1int
            } else {
                0
            }) + (if socks5 {
                1int
            } else {
                0
            }) + (if http_connect {
                1int
            } else {
                0
            });
            &&& fault == Some(CliError::UpstreamNotUnique) <==> selected != 1
            &&& selected == 1 && direct ==> (fault == Some(CliError::CredentialsWithoutProxy)
                <==> credentials)
            &&& selected == 1 && !direct ==> (fault == Some(CliError::LoopbackWithProxy)
                <==> host_loopback)
            &&& fault is None <==> selected == 1 && (direct ==> !credentials) && (!direct
                ==> !host_loopback)
        }),
{
}

/// Options are in order exactly when there are both credentials or none, each of
/// them of one to 255 octets, and the upstream is selected properly.
pub proof fn law_credentials_come_in_pairs(options: RunOptions)
    ensures
        options.username is Some && options.password is None ==> options_fault(options) == Some(
            CliError::IncompleteCredentials,
        ),
        options.username is None && options.password is Some ==> options_fault(options) == Some(
            CliError::IncompleteCredentials,
        ),
        options.username is Some && options.password is Some && (options.username->0@.len() == 0
            || options.username->0@.len() > 255 || options.password->0@.len() == 0
            || options.password->0@.len() > 255) ==> options_fault(options) == Some(
            CliError::InvalidCredentials,
        ),
        options_fault(options) == Some(CliError::InvalidCredentials) ==> options.username is Some
            && !(1 <= options.username->0@.len() <= 255 && 1 <= options.password->0@.len() <= 255),
        options.username is None && options.password is None ==> options_fault(options)
            == upstream_fault(
            options.direct,
            options.socks5 is Some,
            options.http_connect is Some,
            false,
            options.host_loopback,
        ),
{
}

/// The upstream is the one that was asked for: direct connections, or the proxy
/// at its address with the credentials that were given.
pub proof fn law_selected_upstream_is_used(upstream: UpstreamConfig, options: RunOptions)
    requires
        upstream_matches(upstream, options),
        options_fault(options) is None,
    ensures
        upstream is Direct <==> options.direct,
        upstream is Direct ==> upstream->host_loopback == options.host_loopback,
        options.socks5 is Some ==> {
            &&& upstream is Proxy
            &&& upstream->protocol == Protocol::Socks5
            &&& Some(upstream->address) == options.socks5
        },
        options.http_connect is Some ==> {
            &&& upstream is Proxy
            &&& upstream->protocol == Protocol::HttpConnect
            &&& Some(upstream->address) == options.http_connect
        },
        upstream is Proxy ==> {
            &&& upstream->credentials is Some <==> options.username is Some
            &&& upstream->credentials is Some ==> upstream->credentials.unwrap().name()
                == options.username->0@ && upstream->credentials.unwrap().secret()
                == options.password->0@
        },
{
}

/// One line ending comes off a credential and nothing else: a line feed, or a
/// carriage return and a line feed.
pub proof fn law_one_line_ending_comes_off(value: Seq<u8>)
    ensures
        value.len() == 0 || value.last() != 10 ==> without_line_ending(value) == value,
        value.len() == 0 || value.last() != 13 ==> without_line_ending(value.push(10)) == value,
        without_line_ending(value.push(13).push(10)) == value,
        without_line_ending(value.push(10).push(10)) == value.push(10),
{
    assert(value.push(10).drop_last() =~= value);
    assert(value.push(13).push(10).drop_last() =~= value.push(13));
    assert(value.push(13).drop_last() =~= value);
    assert(value.push(10).push(10).drop_last() =~= value.push(10));
}

/// A member of a status is the first of its name, and there is none in what is
/// no object.
pub proof fn law_member_is_found_by_its_name(members: Seq<MemberModel>, name: Seq<u8>, at: int)
    requires
        0 <= at < members.len(),
        members[at].name == name,
        forall|i: int| 0 <= i < at ==> (#[trigger] members[i]).name != name,
    ensures
        member(Some(members), name) == Some(members[at].value),
        member(None, name) is None,
        members[at].value is Text ==> status_text(Some(members), name) == members[at].value->Text_0,
        !(members[at].value is Text) ==> status_text(Some(members), name).map_values(
            |b: u8| b as char,
        ) == "unknown"@,
        status_text(None, name).map_values(|b: u8| b as char) == "unknown"@,
        status_pid(None) == 0,
        members[at].value is Unsigned && members[at].value->Unsigned_0 <= i64::MAX && name
            == target_pid_name() ==> status_pid(Some(members)) == members[at].value->Unsigned_0,
        members[at].value is Negative && name == target_pid_name() ==> status_pid(Some(members))
            == members[at].value->Negative_0,
{
    crate::json::law_place_is_the_first(members, name, 0, at);
    reveal_strlit("unknown");
    assert(unknown().map_values(|b: u8| b as char) =~= "unknown"@);
}

/// The names of the members, and a number below zero with its sign.
pub proof fn law_status_names_its_members(n: nat)
    requires
        n > 0,
    ensures
        instance_id_name().map_values(|b: u8| b as char) == "instance_id"@,
        state_name().map_values(|b: u8| b as char) == "state"@,
        target_pid_name().map_values(|b: u8| b as char) == "target_pid"@,
        before_pid().map_values(|b: u8| b as char) == " (target pid "@,
        signed_decimal(n as int) == decimal(n),
        signed_decimal(-(n as int))[0] as char == '-',
        signed_decimal(-(n as int)).skip(1) == decimal(n),
{
    reveal_strlit("instance_id");
    reveal_strlit("state");
    reveal_strlit("target_pid");
    reveal_strlit(" (target pid ");
    assert(instance_id_name().map_values(|b: u8| b as char) =~= "instance_id"@);
    assert(state_name().map_values(|b: u8| b as char) =~= "state"@);
    assert(target_pid_name().map_values(|b: u8| b as char) =~= "target_pid"@);
    assert(before_pid().map_values(|b: u8| b as char) =~= " (target pid "@);
    assert(signed_decimal(-(n as int)).skip(1) =~= decimal(n));
}

/// A status line is the instance, a colon and a space, the state, and the process
/// in brackets.
pub proof fn law_status_line_has_its_form(status: Option<Seq<MemberModel>>)
    ensures
        ({
            let line = status_line_of(status);
            let first = status_text(status, instance_id_name());
            let second = status_text(status, state_name());
            let n = first.len() as int;
            let m = n + 2 + second.len();
            &&& line.take(n) == first
            &&& line[n] as char == ':' && line[n + 1] as char == ' '
            &&& line.subrange(n + 2, m) == second
            &&& line.subrange(m, m + 13) == before_pid()
            &&& line.subrange(m + 13, line.len() - 1) == signed_decimal(status_pid(status))
            &&& line.last() as char == ')'
        }),
{
    let line = status_line_of(status);
    let first = status_text(status, instance_id_name());
    let second = status_text(status, state_name());
    let n = first.len() as int;
    let m = n + 2 + second.len();
    assert(line.take(n) =~= first);
    assert(line.subrange(n + 2, m) =~= second);
    assert(line.subrange(m, m + 13) =~= before_pid());
    assert(line.subrange(m + 13, line.len() - 1) =~= signed_decimal(status_pid(status)));
}

} // verus!
