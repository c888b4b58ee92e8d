//! The exchange with a proxy before a tunnel carries data.

use super::http::{connect_request, encoded_pair, law_tail_is_preserved, response_outcome};
use super::socks::{address_of, auth_request, command_request, greeting};
use super::{AddressModel, Command, Credentials, Error, Protocol, SocksAddress};
use crate::net::SocketAddress;
use vstd::prelude::*;

verus! {

#[derive(Clone, Copy, Debug, PartialEq, Eq, Structural)]
pub enum State {
    SocksGreetingWrite,
    SocksMethodRead,
    SocksAuthWrite,
    SocksAuthRead,
    SocksCommandWrite,
    SocksCommandRead,
    HttpWrite,
    HttpRead,
    Complete,
}

impl State {
    /// The state in which the answer to what is being written is read.
    pub open spec fn answered_in(self) -> Option<State> {
        match self {
            State::SocksGreetingWrite => Some(State::SocksMethodRead),
            State::SocksAuthWrite => Some(State::SocksAuthRead),
            State::SocksCommandWrite => Some(State::SocksCommandRead),
            State::HttpWrite => Some(State::HttpRead),
            _ => None,
        }
    }

    /// Whether an answer is read in this state.
    pub open spec fn reads(self) -> bool {
        ||| self == State::SocksMethodRead
        ||| self == State::SocksAuthRead
        ||| self == State::SocksCommandRead
        ||| self == State::HttpRead
    }
}

/// A handshake: where it is, what it is for, what is still to be sent, and the
/// address that the proxy named.
pub struct HandshakeModel {
    pub state: State,
    pub command: Command,
    pub target: SocketAddress,
    pub credentials: Option<(Seq<u8>, Seq<u8>)>,
    pub output: Seq<u8>,
    pub bound: Option<AddressModel>,
}

pub open spec fn pair_of(credentials: Option<Credentials>) -> Option<(Seq<u8>, Seq<u8>)> {
    match credentials {
        Some(held) => Some((held.name(), held.secret())),
        None => None,
    }
}

impl HandshakeModel {
    pub open spec fn start(
        protocol: Protocol,
        command: Command,
        target: SocketAddress,
        credentials: Option<Credentials>,
    ) -> HandshakeModel {
        HandshakeModel {
            state: match protocol {
                Protocol::Socks5 => State::SocksGreetingWrite,
                Protocol::HttpConnect => State::HttpWrite,
            },
            command,
            target,
            credentials: pair_of(credentials),
            output: match protocol {
                Protocol::Socks5 => greeting(credentials is Some),
                Protocol::HttpConnect => connect_request(target, encoded_pair(credentials)),
            },
            bound: None,
        }
    }

    /// The handshake after `length` octets of the output were sent.
    pub open spec fn sent(self, length: int) -> HandshakeModel {
        HandshakeModel {
            output: self.output.skip(length),
            state: if length == self.output.len() {
                self.state.answered_in().unwrap()
            } else {
                self.state
            },
            ..self
        }
    }

    pub open spec fn commanding(self) -> HandshakeModel {
        HandshakeModel {
            state: State::SocksCommandWrite,
            output: command_request(self.command, self.target),
            ..self
        }
    }

    /// The answer to the greeting.
    pub open spec fn after_method(self, input: Seq<u8>) -> (Result<int, Error>, HandshakeModel) {
        if input.len() < 2 {
            (Ok(0), self)
        } else if input[0] != 5 {
            (Err(Error::InvalidResponse("SOCKS5 method version")), self)
        } else if input[1] == 0 {
            (Ok(2), self.commanding())
        } else if input[1] != 2 {
            (Err(Error::UnsupportedSocksMethod(input[1])), self)
        } else {
            match self.credentials {
                None => (Err(Error::SocksAuthenticationRequired), self),
                Some((name, secret)) => (
                    Ok(2),
                    HandshakeModel {
                        state: State::SocksAuthWrite,
                        output: auth_request(name, secret),
                        ..self
                    },
                ),
            }
        }
    }

    /// The answer to the credentials.
    pub open spec fn after_auth(self, input: Seq<u8>) -> (Result<int, Error>, HandshakeModel) {
        if input.len() < 2 {
            (Ok(0), self)
        } else if input[0] != 1 {
            (Err(Error::InvalidResponse("SOCKS5 authentication version")), self)
        } else if input[1] != 0 {
            (Err(Error::SocksAuthenticationFailed), self)
        } else {
            (Ok(2), self.commanding())
        }
    }

    /// The answer to the command.
    pub open spec fn after_command(self, input: Seq<u8>) -> (Result<int, Error>, HandshakeModel) {
        if input.len() < 4 {
            (Ok(0), self)
        } else if input[0] != 5 || input[2] != 0 {
            (Err(Error::InvalidResponse("SOCKS5 command header")), self)
        } else if input[3] != 1 && input[3] != 3 && input[3] != 4 {
            (Err(Error::InvalidResponse("SOCKS5 address type")), self)
        } else if input[3] == 3 && input.len() < 5 {
            (Ok(0), self)
        } else {
            let length = if input[3] == 1 {
                10
            } else if input[3] == 4 {
                22
            } else {
                7 + input[4]
            };
            if input.len() < length {
                (Ok(0), self)
            } else if input[1] != 0 {
                (Err(Error::SocksCommandFailed(input[1])), self)
            } else {
                (
                    Ok(length),
                    HandshakeModel {
                        state: State::Complete,
                        credentials: None,
                        bound: address_of(input.subrange(3, length)),
                        ..self
                    },
                )
            }
        }
    }

    /// The answer to the HTTP request.
    pub open spec fn after_http(self, input: Seq<u8>) -> (Result<int, Error>, HandshakeModel) {
        match response_outcome(input) {
            Err(error) => (Err(error), self),
            Ok(length) => if length == 0 {
                (Ok(0), self)
            } else {
                (
                    Ok(length),
                    HandshakeModel { state: State::Complete, credentials: None, ..self },
                )
            },
        }
    }

    /// What input does to the handshake, and how much of it was taken.
    pub open spec fn received(self, input: Seq<u8>) -> (Result<int, Error>, HandshakeModel) {
        match self.state {
            State::SocksMethodRead => self.after_method(input),
            State::SocksAuthRead => self.after_auth(input),
            State::SocksCommandRead => self.after_command(input),
            State::HttpRead => self.after_http(input),
            _ => (Err(Error::InvalidState), self),
        }
    }
}

pub struct Handshake {
    state: State,
    command: Command,
    target: SocketAddress,
    credentials: Option<Credentials>,
    output: Vec<u8>,
    output_offset: usize,
    bound_address: Option<SocksAddress>,
}

impl View for Handshake {
    type V = HandshakeModel;

    closed spec fn view(&self) -> HandshakeModel {
        HandshakeModel {
            state: self.state,
            command: self.command,
            target: self.target,
            credentials: pair_of(self.credentials),
            output: self.output@.skip(self.output_offset as int),
            bound: match self.bound_address {
                Some(address) => Some(address@),
                None => None,
            },
        }
    }
}

impl Drop for Handshake {
    fn drop(&mut self)
        opens_invariants none
        no_unwind
    {
        super::wipe(&mut self.output);
    }
}

impl Handshake {
    /// There is output exactly in the states that write.
    pub closed spec fn wf(&self) -> bool {
        &&& self.output_offset <= self.output@.len()
        &&& self.state.answered_in() is Some <==> self.output_offset < self.output@.len()
    }

    pub fn new(
        protocol: Protocol,
        command: Command,
        target: SocketAddress,
        credentials: Option<Credentials>,
    ) -> (result: Result<Handshake, Error>)
        ensures
            match result {
                Ok(handshake) => {
                    &&& !(protocol == Protocol::HttpConnect && command == Command::UdpAssociate)
                    &&& handshake.wf()
                    &&& handshake@ == HandshakeModel::start(protocol, command, target, credentials)
                },
                Err(error) => {
                    &&& protocol == Protocol::HttpConnect && command == Command::UdpAssociate
                    &&& error == Error::UnsupportedCommand
                },
            },
    {
        let (state, output) = match protocol {
            Protocol::Socks5 => (
                State::SocksGreetingWrite,
                super::socks::socks_greeting(credentials.is_some()),
            ),
            Protocol::HttpConnect => {
                if command == Command::UdpAssociate {
                    return Err(Error::UnsupportedCommand);
                }
                (
                    State::HttpWrite,
                    match &credentials {
                        Some(held) => super::http::http_connect_request(target, Some(held)),
                        None => super::http::http_connect_request(target, None),
                    },
                )
            },
        };
        let handshake = Handshake {
            state,
            command,
            target,
            credentials,
            output,
            output_offset: 0,
            bound_address: None,
        };
        assert(handshake@.output =~= output@);
        Ok(handshake)
    }

    /// What is to be sent.
    #[must_use]
    pub fn output(&self) -> (output: &[u8])
        requires
            self.wf(),
        ensures
            output@ == self@.output,
    {
        let output = vstd::slice::slice_subrange(
            self.output.as_slice(),
            self.output_offset,
            self.output.len(),
        );
        assert(output@ =~= self@.output);
        output
    }

    #[must_use]
    pub fn wants_input(&self) -> (wants: bool)
        ensures
            wants == self@.state.reads(),
    {
        matches!(
            self.state,
            State::SocksMethodRead | State::SocksAuthRead | State::SocksCommandRead
                | State::HttpRead
        )
    }

    #[must_use]
    pub fn is_complete(&self) -> (complete: bool)
        ensures
            complete == (self@.state == State::Complete),
    {
        matches!(self.state, State::Complete)
    }

    /// The address that the proxy named for the tunnel.
    #[must_use]
    pub fn bound_address(&self) -> (address: Option<&SocksAddress>)
        ensures
            match address {
                Some(address) => self@.bound == Some(address@),
                None => self@.bound is None,
            },
    {
        match &self.bound_address {
            Some(address) => Some(address),
            None => None,
        }
    }

    /// Takes note that `length` octets of the output were sent.
    pub fn advance_output(&mut self, length: usize) -> (result: Result<(), Error>)
        requires
            old(self).wf(),
        ensures
            final(self).wf(),
            match result {
                Ok(()) => {
                    &&& 0 < old(self)@.output.len()
                    &&& length <= old(self)@.output.len()
                    &&& final(self)@ == old(self)@.sent(length as int)
                },
                Err(error) => {
                    &&& old(self)@.output.len() == 0 || length > old(self)@.output.len()
                    &&& error == Error::InvalidState
                    &&& final(self)@ == old(self)@
                },
            },
    {
        let left: usize = self.output.len() - self.output_offset;
        if length > left || left == 0 {
            return Err(Error::InvalidState);
        }
        if length < left {
            self.output_offset = self.output_offset + length;
            assert(self@.output =~= old(self)@.output.skip(length as int));
            return Ok(());
        }
        self.clear_output();
        self.state =
        match self.state {
            State::SocksGreetingWrite => State::SocksMethodRead,
            State::SocksAuthWrite => State::SocksAuthRead,
            State::SocksCommandWrite => State::SocksCommandRead,
            State::HttpWrite => State::HttpRead,
            other => other,
        };
        assert(self@.output =~= old(self)@.output.skip(length as int));
        Ok(())
    }

    /// Reads what the proxy sent, and tells how much of it belongs to the
    /// handshake; 0 while an answer is not whole.
    pub fn receive(&mut self, input: &[u8]) -> (result: Result<usize, Error>)
        requires
            old(self).wf(),
        ensures
            final(self).wf(),
            final(self)@ == old(self)@.received(input@).1,
            match result {
                Ok(length) => {
                    &&& old(self)@.received(input@).0 == Ok::<int, Error>(length as int)
                    &&& length <= input@.len()
                },
                Err(error) => old(self)@.received(input@).0 == Err::<int, Error>(error),
            },
    {
        match self.state {
            State::SocksMethodRead => self.receive_socks_method(input),
            State::SocksAuthRead => self.receive_socks_auth(input),
            State::SocksCommandRead => self.receive_socks_command(input),
            State::HttpRead => self.receive_http(input),
            _ => Err(Error::InvalidState),
        }
    }

    fn receive_socks_method(&mut self, input: &[u8]) -> (result: Result<usize, Error>)
        requires
            old(self).wf(),
            old(self)@.state == State::SocksMethodRead,
        ensures
            final(self).wf(),
            final(self)@ == old(self)@.after_method(input@).1,
            match result {
                Ok(length) => {
                    &&& old(self)@.after_method(input@).0 == Ok::<int, Error>(length as int)
                    &&& length <= input@.len()
                },
                Err(error) => old(self)@.after_method(input@).0 == Err::<int, Error>(error),
            },
    {
        if input.len() < 2 {
            return Ok(0);
        }
        if input[0] != 5 {
            return Err(Error::InvalidResponse("SOCKS5 method version"));
        }
        match input[1] {
            0 => {
                let request = super::socks::socks_command_request(self.command, self.target);
                self.set_output(request);
                self.state = State::SocksCommandWrite;
            },
            2 => {
                let request = match &self.credentials {
                    None => return Err(Error::SocksAuthenticationRequired),
                    Some(held) => super::socks::socks_auth_request(held),
                };
                self.set_output(request);
                self.state = State::SocksAuthWrite;
            },
            method => return Err(Error::UnsupportedSocksMethod(method)),
        }
        Ok(2)
    }

    fn receive_socks_auth(&mut self, input: &[u8]) -> (result: Result<usize, Error>)
        requires
            old(self).wf(),
            old(self)@.state == State::SocksAuthRead,
        ensures
            final(self).wf(),
            final(self)@ == old(self)@.after_auth(input@).1,
            match result {
                Ok(length) => {
                    &&& old(self)@.after_auth(input@).0 == Ok::<int, Error>(length as int)
                    &&& length <= input@.len()
                },
                Err(error) => old(self)@.after_auth(input@).0 == Err::<int, Error>(error),
            },
    {
        if input.len() < 2 {
            return Ok(0);
        }
        if input[0] != 1 {
            return Err(Error::InvalidResponse("SOCKS5 authentication version"));
        }
        if input[1] != 0 {
            return Err(Error::SocksAuthenticationFailed);
        }
        let request = super::socks::socks_command_request(self.command, self.target);
        self.set_output(request);
        self.state = State::SocksCommandWrite;
        Ok(2)
    }

    fn receive_socks_command(&mut self, input: &[u8]) -> (result: Result<usize, Error>)
        requires
            old(self).wf(),
            old(self)@.state == State::SocksCommandRead,
        ensures
            final(self).wf(),
            final(self)@ == old(self)@.after_command(input@).1,
            match result {
                Ok(length) => {
                    &&& old(self)@.after_command(input@).0 == Ok::<int, Error>(length as int)
                    &&& length <= input@.len()
                },
                Err(error) => old(self)@.after_command(input@).0 == Err::<int, Error>(error),
            },
    {
        if input.len() < 4 {
            return Ok(0);
        }
        if input[0] != 5 || input[2] != 0 {
            return Err(Error::InvalidResponse("SOCKS5 command header"));
        }
        let length: usize = match input[3] {
            1 => 10,
            4 => 22,
            3 => {
                if input.len() < 5 {
                    return Ok(0);
                }
                7 + input[4] as usize
            },
            _ => return Err(Error::InvalidResponse("SOCKS5 address type")),
        };
        if input.len() < length {
            return Ok(0);
        }
        if input[1] != 0 {
            return Err(Error::SocksCommandFailed(input[1]));
        }
        let written = vstd::slice::slice_subrange(input, 3, length);
        assert(written@[0] == input@[3]);
        assert(written@.len() > 1 ==> written@[1] == input@[4]);
        match super::socks::parse_socks_address(written) {
            Ok(address) => {
                self.bound_address = Some(address);
                self.state = State::Complete;
                self.credentials = None;
                Ok(length)
            },
            Err(error) => Err(error),
        }
    }

    fn receive_http(&mut self, input: &[u8]) -> (result: Result<usize, Error>)
        requires
            old(self).wf(),
            old(self)@.state == State::HttpRead,
        ensures
            final(self).wf(),
            final(self)@ == old(self)@.after_http(input@).1,
            match result {
                Ok(length) => {
                    &&& old(self)@.after_http(input@).0 == Ok::<int, Error>(length as int)
                    &&& length <= input@.len()
                },
                Err(error) => old(self)@.after_http(input@).0 == Err::<int, Error>(error),
            },
    {
        match super::http::read_response(input) {
            Err(error) => Err(error),
            Ok(length) => {
                if length > 0 {
                    self.state = State::Complete;
                    self.credentials = None;
                }
                Ok(length)
            },
        }
    }

    fn set_output(&mut self, output: Vec<u8>)
        ensures
            final(self)@ == (HandshakeModel { output: output@, ..old(self)@ }),
            final(self).output_offset == 0,
            final(self).output@ == output@,
    {
        self.clear_output();
        self.output = output;
        assert(self@.output =~= output@);
    }

    fn clear_output(&mut self)
        ensures
            final(self)@ == (HandshakeModel { output: Seq::<u8>::empty(), ..old(self)@ }),
            final(self).output_offset == 0,
            final(self).output@.len() == 0,
    {
        super::wipe(&mut self.output);
        self.output_offset = 0;
        assert(self@.output =~= Seq::<u8>::empty());
    }
}

/// How many answers a handshake still waits for.
pub open spec fn answers_left(state: State) -> nat {
    match state {
        State::SocksGreetingWrite | State::SocksMethodRead => 3,
        State::SocksAuthWrite | State::SocksAuthRead => 2,
        State::SocksCommandWrite | State::SocksCommandRead | State::HttpWrite
        | State::HttpRead => 1,
        State::Complete => 0,
    }
}

/// Every answer that is taken brings the handshake nearer to its end, so a proxy
/// cannot hold it in a circle; and the end is reached exactly when no answer is
/// awaited.
pub proof fn law_handshake_advances(handshake: HandshakeModel, input: Seq<u8>)
    ensures
        handshake.received(input).0 is Ok && handshake.received(input).0->Ok_0 != 0
            ==> answers_left(handshake.received(input).1.state) < answers_left(handshake.state),
        answers_left(handshake.state) == 0 <==> handshake.state == State::Complete,
{
}

/// Input that fails, or that is not a whole answer, leaves the handshake as it
/// was; and once complete it holds no credentials.
pub proof fn law_refused_input_changes_nothing(handshake: HandshakeModel, input: Seq<u8>)
    ensures
        handshake.received(input).0 is Err ==> handshake.received(input).1 == handshake,
        handshake.received(input).0 == Ok::<int, Error>(0) ==> handshake.received(input).1
            == handshake,
        handshake.state != State::Complete && handshake.received(input).1.state
            == State::Complete ==> handshake.received(input).1.credentials is None,
{
}

/// An answer is decided by its own octets: where the handshake takes `n` octets
/// of what the proxy sent, it takes them in the same way, and comes to the same,
/// whatever stands behind them.
pub proof fn law_answer_ends_where_it_is_taken(
    handshake: HandshakeModel,
    input: Seq<u8>,
    tail: Seq<u8>,
)
    requires
        handshake.received(input).0 is Ok,
        handshake.received(input).0->Ok_0 > 0,
    ensures
        handshake.received(input).0->Ok_0 <= input.len(),
        handshake.received(input.take(handshake.received(input).0->Ok_0) + tail)
            == handshake.received(input),
{
    let taken = handshake.received(input).0->Ok_0;
    if handshake.state == State::HttpRead {
        law_tail_is_preserved(input, tail);
    } else {
        let other = input.take(taken) + tail;
        assert forall|i: int| 0 <= i < taken implies other[i] == input[i] by {}
        if handshake.state == State::SocksCommandRead {
            assert(other.subrange(3, taken) =~= input.subrange(3, taken));
        }
    }
}

/// An HTTP proxy has made the tunnel exactly where it answers with a status of 200
/// to 299; any other status ends the handshake, and the flow with it.
pub proof fn law_http_tunnel_needs_success(
    handshake: HandshakeModel,
    s: Seq<u8>,
    line: int,
    end: int,
)
    requires
        handshake.state == State::HttpRead,
        12 <= line <= end - 4,
        end <= s.len(),
        end <= 8192,
        forall|i: int| 0 <= i < line ==> !(#[trigger] s[i] == 13 && s[i + 1] == 10),
        s[line] == 13 && s[line + 1] == 10,
        forall|i: int|
            0 <= i < end - 4 ==> !(#[trigger] s[i] == 13 && s[i + 1] == 10 && s[i + 2] == 13 && s[i
                + 3] == 10),
        s[end - 4] == 13 && s[end - 3] == 10 && s[end - 2] == 13 && s[end - 1] == 10,
        vstd::utf8::valid_utf8(s.take(line)),
        s[0] == 72 && s[1] == 84 && s[2] == 84 && s[3] == 80 && s[4] == 47 && s[5] == 49 && s[6]
            == 46,
        s[7] == 48 || s[7] == 49,
        s[8] == 32,
        48 <= s[9] <= 57 && 48 <= s[10] <= 57 && 48 <= s[11] <= 57,
        line > 12 ==> s[12] == 32,
    ensures
        ({
            let (result, next) = handshake.received(s);
            let status = 100 * (s[9] - 48) + 10 * (s[10] - 48) + (s[11] - 48);
            &&& 200 <= status < 300 <==> result == Ok::<int, Error>(end)
            &&& 200 <= status < 300 <==> next.state == State::Complete
            &&& !(200 <= status < 300) ==> result == Err::<int, Error>(
                Error::HttpConnectFailed(status as u16),
            )
        }),
{
    super::http::law_tunnel_stands_on_success_only(s, line, end);
}

/// A SOCKS5 proxy that wants no authentication is sent the command, one that wants a
/// password is sent the credentials if there are any, and any other choice ends the
/// handshake.
pub proof fn law_socks_method_is_followed(handshake: HandshakeModel, input: Seq<u8>)
    requires
        handshake.state == State::SocksMethodRead,
    ensures
        ({
            let (result, next) = handshake.received(input);
            &&& input.len() < 2 ==> result == Ok::<int, Error>(0)
            &&& input.len() >= 2 && input[0] != 5 ==> result is Err
            &&& input.len() >= 2 && input[0] == 5 ==> {
                &&& input[1] == 0 ==> {
                    &&& result == Ok::<int, Error>(2)
                    &&& next.state == State::SocksCommandWrite
                    &&& next.output == command_request(handshake.command, handshake.target)
                }
                &&& input[1] == 2 && handshake.credentials is Some ==> {
                    &&& result == Ok::<int, Error>(2)
                    &&& next.state == State::SocksAuthWrite
                    &&& next.output == auth_request(
                        handshake.credentials.unwrap().0,
                        handshake.credentials.unwrap().1,
                    )
                }
                &&& input[1] == 2 && handshake.credentials is None ==> result == Err::<int, Error>(
                    Error::SocksAuthenticationRequired,
                )
                &&& input[1] != 0 && input[1] != 2 ==> result == Err::<int, Error>(
                    Error::UnsupportedSocksMethod(input[1]),
                )
            }
        }),
{
}

/// Only a status of zero accepts the credentials.
pub proof fn law_socks_credentials_are_accepted_by_zero(handshake: HandshakeModel, input: Seq<u8>)
    requires
        handshake.state == State::SocksAuthRead,
        input.len() >= 2,
    ensures
        ({
            let (result, next) = handshake.received(input);
            &&& result == Ok::<int, Error>(2) <==> input[0] == 1 && input[1] == 0
            &&& result is Ok ==> {
                &&& next.state == State::SocksCommandWrite
                &&& next.output == command_request(handshake.command, handshake.target)
            }
            &&& input[0] == 1 && input[1] != 0 ==> result == Err::<int, Error>(
                Error::SocksAuthenticationFailed,
            )
        }),
{
}

/// A SOCKS5 tunnel stands exactly where the whole answer has come and its code is
/// zero: ten octets with an IPv4 address, 22 with an IPv6 address, and seven and its
/// length with a name. Any other code is reported.
pub proof fn law_socks_tunnel_needs_success(handshake: HandshakeModel, input: Seq<u8>, length: int)
    requires
        handshake.state == State::SocksCommandRead,
        input.len() >= 5,
        input[0] == 5,
        input[2] == 0,
        input[3] == 1 && length == 10 || input[3] == 4 && length == 22 || input[3] == 3 && length
            == 7 + input[4],
    ensures
        ({
            let (result, next) = handshake.received(input);
            &&& input.len() < length ==> result == Ok::<int, Error>(0) && next == handshake
            &&& input.len() >= length && input[1] == 0 ==> {
                &&& result == Ok::<int, Error>(length)
                &&& next.state == State::Complete
                &&& next.credentials is None
            }
            &&& input.len() >= length && input[1] != 0 ==> result == Err::<int, Error>(
                Error::SocksCommandFailed(input[1]),
            )
        }),
{
}

/// The address that the proxy named is the one in its answer.
pub proof fn law_bound_address_is_read(handshake: HandshakeModel, input: Seq<u8>)
    requires
        handshake.state == State::SocksCommandRead,
        input.len() >= 10,
        input[0] == 5 && input[1] == 0 && input[2] == 0 && input[3] == 1,
    ensures
        ({
            let next = handshake.received(input).1;
            &&& next.bound matches Some(AddressModel::Socket(address))
            &&& address.ip matches crate::net::IpAddress::V4(octets)
            &&& octets@ == input.subrange(4, 8)
            &&& address.port == 256 * input[8] + input[9]
        }),
{
    let next = handshake.received(input).1;
    let written = input.subrange(3, 10);
    let octets = [written[1], written[2], written[3], written[4]];
    assert(octets@ =~= input.subrange(4, 8));
}

/// A handshake begins by writing the first message of its protocol, and what was
/// written is followed by reading its answer: the state moves on only when all of it
/// is sent.
pub proof fn law_handshake_writes_and_reads_in_turn(
    protocol: Protocol,
    command: Command,
    target: SocketAddress,
    credentials: Option<Credentials>,
    handshake: HandshakeModel,
    length: int,
)
    requires
        0 <= length <= handshake.output.len(),
    ensures
        ({
            let first = HandshakeModel::start(protocol, command, target, credentials);
            &&& protocol == Protocol::Socks5 ==> {
                &&& first.state == State::SocksGreetingWrite
                &&& first.output == if credentials is Some {
                    seq![5u8, 2u8, 0u8, 2u8]
                } else {
                    seq![5u8, 1u8, 0u8]
                }
            }
            &&& protocol == Protocol::HttpConnect ==> {
                &&& first.state == State::HttpWrite
                &&& first.output == connect_request(target, encoded_pair(credentials))
            }
            &&& first.target == target
            &&& first.command == command
            &&& first.bound is None
        }),
        ({
            let next = handshake.sent(length);
            &&& next.output == handshake.output.skip(length)
            &&& length < handshake.output.len() ==> next.state == handshake.state
            &&& length == handshake.output.len() ==> match handshake.state {
                State::SocksGreetingWrite => next.state == State::SocksMethodRead,
                State::SocksAuthWrite => next.state == State::SocksAuthRead,
                State::SocksCommandWrite => next.state == State::SocksCommandRead,
                State::HttpWrite => next.state == State::HttpRead,
                _ => true,
            }
        }),
{
}

/// Nothing but a state that awaits an answer takes input.
pub proof fn law_input_is_taken_only_when_awaited(handshake: HandshakeModel, input: Seq<u8>)
    ensures
        handshake.state == State::SocksGreetingWrite || handshake.state == State::SocksAuthWrite
            || handshake.state == State::SocksCommandWrite || handshake.state == State::HttpWrite
            || handshake.state == State::Complete ==> handshake.received(input) == (
            Err::<int, Error>(Error::InvalidState),
            handshake,
        ),
        handshake.state.reads() <==> handshake.state == State::SocksMethodRead || handshake.state
            == State::SocksAuthRead || handshake.state == State::SocksCommandRead || handshake.state
            == State::HttpRead,
{
}

} // verus!
